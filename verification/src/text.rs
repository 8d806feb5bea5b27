//! Text building blocks: decimal numbers, blank strings, byte-safe path
//! shortening.
use vstd::prelude::*;
use vstd::utf8::{decode_utf8, encode_utf8, is_char_boundary};

verus! {

/// The ASCII digit for `d`.
pub open spec fn digit_char(d: nat) -> char
    recommends
        d < 10,
{
    if d == 0 { '0' }
    else if d == 1 { '1' }
    else if d == 2 { '2' }
    else if d == 3 { '3' }
    else if d == 4 { '4' }
    else if d == 5 { '5' }
    else if d == 6 { '6' }
    else if d == 7 { '7' }
    else if d == 8 { '8' }
    else { '9' }
}

/// The decimal representation of `n`, without sign or leading zeros.
pub open spec fn decimal(n: nat) -> Seq<char>
    decreases n,
{
    if n < 10 {
        seq![digit_char(n)]
    } else {
        decimal(n / 10).push(digit_char(n % 10))
    }
}

fn digit_text(d: u64) -> (s: &'static str)
    requires
        d < 10,
    ensures
        s@ == seq![digit_char(d as nat)],
{
    if d == 0 {
        proof { reveal_strlit("0"); }
        "0"
    } else if d == 1 {
        proof { reveal_strlit("1"); }
        "1"
    } else if d == 2 {
        proof { reveal_strlit("2"); }
        "2"
    } else if d == 3 {
        proof { reveal_strlit("3"); }
        "3"
    } else if d == 4 {
        proof { reveal_strlit("4"); }
        "4"
    } else if d == 5 {
        proof { reveal_strlit("5"); }
        "5"
    } else if d == 6 {
        proof { reveal_strlit("6"); }
        "6"
    } else if d == 7 {
        proof { reveal_strlit("7"); }
        "7"
    } else if d == 8 {
        proof { reveal_strlit("8"); }
        "8"
    } else {
        proof { reveal_strlit("9"); }
        "9"
    }
}

/// Writes `n` in decimal, as `{}` formats an unsigned integer.
pub fn decimal_text(n: u64) -> (s: String)
    ensures
        s@ == decimal(n as nat),
    decreases n,
{
    if n < 10 {
        String::from_str(digit_text(n))
    } else {
        let mut s = decimal_text(n / 10);
        s.append(digit_text(n % 10));
        s
    }
}


/// Whether `c` has the Unicode `White_Space` property, which is what
/// `char::is_whitespace` and `str::trim` go by.
pub open spec fn is_white_space(c: char) -> bool {
    let u = c as u32;
    ||| 0x09 <= u <= 0x0d
    ||| u == 0x20
    ||| u == 0x85
    ||| u == 0xa0
    ||| u == 0x1680
    ||| 0x2000 <= u <= 0x200a
    ||| u == 0x2028
    ||| u == 0x2029
    ||| u == 0x202f
    ||| u == 0x205f
    ||| u == 0x3000
}

/// Whether `s` trims to the empty string: every character is white space.
pub open spec fn is_blank_chars(s: Seq<char>) -> bool {
    forall|i: int| 0 <= i < s.len() ==> is_white_space(#[trigger] s[i])
}

/// Executable form of `is_white_space`.
pub fn char_is_white_space(c: char) -> (b: bool)
    ensures
        b == is_white_space(c),
{
    let u = c as u32;
    (0x09 <= u && u <= 0x0d) || u == 0x20 || u == 0x85 || u == 0xa0 || u == 0x1680 || (0x2000 <= u
        && u <= 0x200a) || u == 0x2028 || u == 0x2029 || u == 0x202f || u == 0x205f || u == 0x3000
}

/// Whether `s.trim()` is empty.
pub fn is_blank(s: &str) -> (b: bool)
    ensures
        b == is_blank_chars(s@),
{
    let n = s.unicode_len();
    let mut i: usize = 0;
    while i < n
        invariant
            n == s@.len(),
            i <= n,
            forall|j: int| 0 <= j < i ==> is_white_space(#[trigger] s@[j]),
        decreases n - i,
    {
        let c = s.get_char(i);
        if !char_is_white_space(c) {
            return false;
        }
        i = i + 1;
    }
    true
}

/// `count` copies of `c`.
pub fn repeat_char(c: &str, count: usize) -> (s: String)
    requires
        c@.len() == 1,
    ensures
        s@ == Seq::new(count as nat, |_i: int| c@[0]),
{
    let mut s = String::new();
    let mut i: usize = 0;
    while i < count
        invariant
            c@.len() == 1,
            i <= count,
            s@ == Seq::new(i as nat, |_i: int| c@[0]),
        decreases count - i,
    {
        s.append(c);
        i = i + 1;
        assert(s@ =~= Seq::new(i as nat, |_i: int| c@[0]));
    }
    s
}

/// The form in which the file list shows a path: paths longer than 80 bytes
/// keep their first 40 and last 37 bytes around an ellipsis.
pub open spec fn shortened_path(p: Seq<char>) -> Seq<char> {
    let b = encode_utf8(p);
    if b.len() > 80 {
        decode_utf8(b.subrange(0, 40)) + "..."@ + decode_utf8(b.subrange(b.len() - 37, b.len() as int))
    } else {
        p
    }
}

/// Whether `shortened_path` cuts `p` on character boundaries; where it does
/// not, slicing the path by bytes would panic.
pub open spec fn can_shorten(p: Seq<char>) -> bool {
    let b = encode_utf8(p);
    b.len() > 80 ==> is_char_boundary(b, 40) && is_char_boundary(b, b.len() - 37)
}

/// The text under which the file list shows `file_path`.
pub fn display_path(file_path: &str) -> (d: String)
    requires
        can_shorten(file_path@),
        encode_utf8(file_path@).len() <= usize::MAX,
    ensures
        d@ == shortened_path(file_path@),
{
    let n = file_path.len();
    assert(n == encode_utf8(file_path@).len());
    if n > 80 {
        let (head, _rest) = file_path.split_at(40);
        let (_front, tail) = file_path.split_at(n - 37);
        proof {
            vstd::utf8::encode_utf8_decode_utf8(head@);
            vstd::utf8::encode_utf8_decode_utf8(tail@);
        }
        let mut d = String::from_str(head);
        d.append("...");
        d.append(tail);
        d
    } else {
        String::from_str(file_path)
    }
}


/// The number that a sequence of decimal digits denotes.
pub open spec fn digits_value(s: Seq<char>) -> int
    decreases s.len(),
{
    if s.len() == 0 {
        0
    } else {
        digits_value(s.drop_last()) * 10 + ((s.last() as u32) - 48)
    }
}

proof fn lemma_digit_char_value(d: nat)
    requires
        d < 10,
    ensures
        digit_char(d) as u32 == 48 + d,
{
}

/// Written in decimal, a number is a non-empty run of digits that reads back
/// as the number.
pub proof fn law_decimal_reads_back(n: nat)
    ensures
        decimal(n).len() > 0,
        forall|i: int| 0 <= i < decimal(n).len() ==> '0' <= #[trigger] decimal(n)[i] <= '9',
        digits_value(decimal(n)) == n,
    decreases n,
{
    lemma_digit_char_value(n % 10);
    if n < 10 {
        assert(n % 10 == n);
        assert(decimal(n).drop_last() =~= Seq::<char>::empty());
        assert(decimal(n).last() == digit_char(n));
        assert(digits_value(decimal(n).drop_last()) == 0);
    } else {
        law_decimal_reads_back(n / 10);
        let d = decimal(n);
        assert(d.drop_last() == decimal(n / 10));
        assert forall|i: int| 0 <= i < d.len() implies '0' <= #[trigger] d[i] <= '9' by {
            if i < d.len() - 1 {
                assert(d[i] == decimal(n / 10)[i]);
            }
        }
        assert(n == (n / 10) * 10 + n % 10) by (nonlinear_arith);
        assert(d.last() == digit_char(n % 10));
        assert(digits_value(d) == digits_value(decimal(n / 10)) * 10 + ((d.last() as u32) - 48));
    }
}


proof fn lemma_encode_utf8_concat(a: Seq<char>, b: Seq<char>)
    ensures
        encode_utf8(a + b) == encode_utf8(a) + encode_utf8(b),
    decreases a.len(),
{
    if a.len() == 0 {
        assert(a + b =~= b);
        assert(encode_utf8(a) =~= Seq::<u8>::empty());
        assert(encode_utf8(a) + encode_utf8(b) =~= encode_utf8(b));
    } else {
        lemma_encode_utf8_concat(a.drop_first(), b);
        assert((a + b).drop_first() =~= a.drop_first() + b);
        assert((a + b)[0] == a[0]);
        assert(encode_utf8(a + b) =~= encode_utf8(a) + encode_utf8(b));
    }
}

/// A shortened path takes exactly 80 bytes: its first 40, an ellipsis of
/// three, and its last 37.
pub proof fn law_shortened_path_is_80_bytes(p: Seq<char>)
    requires
        can_shorten(p),
        encode_utf8(p).len() > 80,
    ensures
        encode_utf8(shortened_path(p)).len() == 80,
{
    let b = encode_utf8(p);
    let n = b.len() as int;
    vstd::utf8::encode_utf8_valid_utf8(p);
    vstd::utf8::valid_utf8_split(b, 40);
    vstd::utf8::valid_utf8_split(b, n - 37);
    let head = b.subrange(0, 40);
    let tail = b.subrange(n - 37, n);
    assert(b.subrange(n - 37, b.len() as int) == tail);
    vstd::utf8::decode_utf8_encode_utf8(head);
    vstd::utf8::decode_utf8_encode_utf8(tail);
    let dh = decode_utf8(head);
    let dt = decode_utf8(tail);
    reveal_strlit("...");
    lemma_encode_utf8_concat(dh, "..."@);
    lemma_encode_utf8_concat(dh + "..."@, dt);
    assert(encode_utf8("..."@).len() == 3) by {
        reveal_with_fuel(encode_utf8, 4);
    }
}

} // verus!
