//! Small facts about text: numerals and the UTF-8 bytes of a concatenation.

use std::sync::Arc;
use vstd::prelude::*;
use vstd::utf8::{
    decode_utf8, encode_scalar, encode_utf8, is_char_boundary, length_of_first_scalar,
    pop_first_scalar,
};

verus! {

/// `String::push`: one more character at the end.
pub assume_specification[ String::push ](string: &mut String, ch: char)
    ensures
        final(string)@ == old(string)@.push(ch),
;

/// The decimal digit for a number below ten.
pub open spec fn digit(n: nat) -> char {
    (0x30 + n) as char
}

/// A number in decimal, without leading zeros.
pub open spec fn decimal(n: nat) -> Seq<char>
    decreases n,
{
    if n < 10 {
        seq![digit(n)]
    } else {
        decimal(n / 10).push(digit(n % 10))
    }
}

/// The lowercase hexadecimal digit for a number below sixteen.
pub open spec fn hex_digit(n: nat) -> char {
    if n < 10 {
        digit(n)
    } else {
        (0x57 + n) as char
    }
}

/// A byte as two hexadecimal digits.
pub open spec fn hex_byte(n: nat) -> Seq<char> {
    seq![hex_digit(n / 16), hex_digit(n % 16)]
}

/// Appends `n` in decimal.
pub fn push_decimal(out: &mut String, n: u8)
    ensures
        final(out)@ == old(out)@ + decimal(n as nat),
    decreases n,
{
    let ghost before = out@;
    if n >= 10 {
        push_decimal(out, n / 10);
    }
    out.push((0x30 + n % 10) as char);
    assert(out@ =~= before + decimal(n as nat));
}

/// Appends a byte as two hexadecimal digits.
pub fn push_hex(out: &mut String, n: u8)
    ensures
        final(out)@ == old(out)@ + hex_byte(n as nat),
{
    let ghost before = out@;
    let high = n / 16;
    let low = n % 16;
    out.push(
        if high < 10 {
            (0x30 + high) as char
        } else {
            (0x57 + high) as char
        },
    );
    out.push(
        if low < 10 {
            (0x30 + low) as char
        } else {
            (0x57 + low) as char
        },
    );
    assert(out@ =~= before + hex_byte(n as nat));
}

/// A decimal numeral is made of decimal digits.
pub proof fn decimal_is_digits(n: nat)
    ensures
        decimal(n).len() > 0,
        forall|k: int| 0 <= k < decimal(n).len() ==> '0' <= #[trigger] decimal(n)[k] <= '9',
    decreases n,
{
    if n >= 10 {
        decimal_is_digits(n / 10);
    }
}

/// The bytes of a concatenation are the bytes of its parts.
pub proof fn bytes_of_concat(a: Seq<char>, b: Seq<char>)
    ensures
        encode_utf8(a + b) == encode_utf8(a) + encode_utf8(b),
    decreases a.len(),
{
    if a.len() == 0 {
        assert(a + b =~= b);
        assert(encode_utf8(a) =~= seq![]);
    } else {
        bytes_of_concat(a.drop_first(), b);
        assert((a + b).drop_first() =~= a.drop_first() + b);
        assert((a + b)[0] == a[0]);
    }
}

/// Without its first character a text is without that character's bytes.
proof fn bytes_of_rest(s: Seq<char>)
    requires
        s.len() > 0,
    ensures
        pop_first_scalar(encode_utf8(s)) == encode_utf8(s.drop_first()),
        encode_utf8(s).len() == length_of_first_scalar(encode_utf8(s)) + encode_utf8(
            s.drop_first(),
        ).len(),
        length_of_first_scalar(encode_utf8(s)) == encode_scalar(s[0] as u32).len(),
{
    vstd::utf8::encode_utf8_first_scalar(s);
    assert(pop_first_scalar(encode_utf8(s)) =~= encode_utf8(s.drop_first()));
}

/// Where one text ends and another begins is a character boundary.
pub proof fn a_seam_is_a_boundary(a: Seq<char>, b: Seq<char>)
    ensures
        is_char_boundary(encode_utf8(a + b), encode_utf8(a).len() as int),
    decreases a.len(),
{
    let all = a + b;
    vstd::utf8::encode_utf8_valid_utf8(all);
    if a.len() == 0 {
        assert(encode_utf8(a) =~= seq![]);
    } else {
        assert(all.drop_first() =~= a.drop_first() + b);
        assert(all[0] == a[0]);
        a_seam_is_a_boundary(a.drop_first(), b);
        bytes_of_concat(a, b);
        bytes_of_rest(all);
        bytes_of_rest(a);
    }
}

/// A character boundary of a text is one of any longer text.
pub proof fn boundary_stays(a: Seq<char>, b: Seq<char>, i: int)
    requires
        is_char_boundary(encode_utf8(a), i),
        0 <= i <= encode_utf8(a).len(),
    ensures
        is_char_boundary(encode_utf8(a + b), i),
    decreases a.len(),
{
    let all = a + b;
    vstd::utf8::encode_utf8_valid_utf8(all);
    vstd::utf8::encode_utf8_valid_utf8(a);
    if i > 0 {
        assert(a.len() > 0) by {
            if a.len() == 0 {
                assert(encode_utf8(a) =~= seq![]);
            }
        }
        assert(all.drop_first() =~= a.drop_first() + b);
        assert(all[0] == a[0]);
        bytes_of_concat(a, b);
        bytes_of_rest(all);
        bytes_of_rest(a);
        let rest = i - length_of_first_scalar(encode_utf8(a));
        vstd::utf8::encode_utf8_valid_utf8(a.drop_first());
        assert(is_char_boundary(encode_utf8(a.drop_first()), rest));
        boundary_stays(a.drop_first(), b, rest);
    }
}

/// A character boundary of a text is, as far as it lies in the front part,
/// one of that part.
pub proof fn boundary_of_front(a: Seq<char>, b: Seq<char>, i: int)
    requires
        is_char_boundary(encode_utf8(a + b), i),
        0 <= i <= encode_utf8(a).len(),
    ensures
        is_char_boundary(encode_utf8(a), i),
    decreases a.len(),
{
    let all = a + b;
    vstd::utf8::encode_utf8_valid_utf8(all);
    vstd::utf8::encode_utf8_valid_utf8(a);
    if i > 0 {
        assert(a.len() > 0) by {
            if a.len() == 0 {
                assert(encode_utf8(a) =~= seq![]);
            }
        }
        assert(all.drop_first() =~= a.drop_first() + b);
        assert(all[0] == a[0]);
        bytes_of_rest(all);
        bytes_of_rest(a);
        let rest = i - length_of_first_scalar(encode_utf8(a));
        vstd::utf8::encode_utf8_valid_utf8(all.drop_first());
        assert(is_char_boundary(encode_utf8(all.drop_first()), rest));
        boundary_of_front(a.drop_first(), b, rest);
    }
}

/// A character boundary of a text is, as far as it lies in the back part, one
/// of that part.
pub proof fn boundary_of_back(a: Seq<char>, b: Seq<char>, i: int)
    requires
        is_char_boundary(encode_utf8(a + b), i),
        encode_utf8(a).len() <= i,
    ensures
        is_char_boundary(encode_utf8(b), i - encode_utf8(a).len()),
    decreases a.len(),
{
    let all = a + b;
    vstd::utf8::encode_utf8_valid_utf8(all);
    if a.len() == 0 {
        assert(encode_utf8(a) =~= seq![]);
        assert(all =~= b);
    } else {
        assert(all.drop_first() =~= a.drop_first() + b);
        assert(all[0] == a[0]);
        bytes_of_rest(all);
        bytes_of_rest(a);
        vstd::utf8::char_is_scalar(a[0]);
        let rest = i - length_of_first_scalar(encode_utf8(a));
        assert(is_char_boundary(encode_utf8(all.drop_first()), rest));
        boundary_of_back(a.drop_first(), b, rest);
    }
}

/// Texts with the same bytes are the same.
pub proof fn bytes_tell_texts_apart(a: Seq<char>, b: Seq<char>)
    requires
        encode_utf8(a) == encode_utf8(b),
    ensures
        a == b,
{
    vstd::utf8::encode_utf8_decode_utf8(a);
    vstd::utf8::encode_utf8_decode_utf8(b);
}

/// The part of a text between two byte offsets.
pub open spec fn byte_slice(s: Seq<char>, i: int, j: int) -> Seq<char> {
    decode_utf8(encode_utf8(s).subrange(i, j))
}

/// The part of a text between two character boundaries.
pub fn slice(text: &str, i: usize, j: usize) -> (part: String)
    requires
        i <= j,
        is_char_boundary(encode_utf8(text@), i as int),
        is_char_boundary(encode_utf8(text@), j as int),
    ensures
        part@ == byte_slice(text@, i as int, j as int),
        encode_utf8(part@) == encode_utf8(text@).subrange(i as int, j as int),
{
    let ghost bytes = encode_utf8(text@);
    let (head, tail) = text.split_at(j);
    proof {
        boundary_in_bounds(text@, j as int);
        assert(encode_utf8(head@) + encode_utf8(tail@) =~= bytes);
        bytes_of_concat(head@, tail@);
        bytes_tell_texts_apart(head@ + tail@, text@);
        boundary_of_front(head@, tail@, i as int);
    }
    let (_, middle) = head.split_at(i);
    proof {
        assert(encode_utf8(middle@) =~= bytes.subrange(i as int, j as int));
        vstd::utf8::encode_utf8_decode_utf8(middle@);
    }
    middle.to_owned()
}

/// Whether two texts are the same.
pub fn same_text(a: &str, b: &str) -> (same: bool)
    ensures
        same == (a@ == b@),
{
    let x = a.as_bytes();
    let y = b.as_bytes();
    if x.len() != y.len() {
        return false;
    }
    let mut i: usize = 0;
    while i < x.len()
        invariant
            x@ == encode_utf8(a@),
            y@ == encode_utf8(b@),
            x@.len() == y@.len(),
            i <= x@.len(),
            forall|k: int| 0 <= k < i ==> x@[k] == y@[k],
        decreases x@.len() - i,
    {
        if x[i] != y[i] {
            return false;
        }
        i += 1;
    }
    proof {
        assert(x@ =~= y@);
        bytes_tell_texts_apart(a@, b@);
    }
    true
}

/// `Arc::from` on a `&str`: a shared text that holds the same characters.
#[verifier::external_body]
pub(crate) fn shared(s: &str) -> (made: Arc<str>)
    ensures
        (*made)@ == s@,
{
    Arc::from(s)
}

/// A character boundary lies in the text.
pub proof fn boundary_in_bounds(s: Seq<char>, i: int)
    requires
        is_char_boundary(encode_utf8(s), i),
    ensures
        0 <= i <= encode_utf8(s).len(),
{
    vstd::utf8::encode_utf8_valid_utf8(s);
}

} // verus!
