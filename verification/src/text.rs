//! String utilities the extraction pipeline rests on: address
//! standardization, prefix tests, the `::` separators of a Move type tag,
//! and null-character removal for payload sanitization.

use vstd::prelude::*;
use vstd::string::*;

verus! {

/// `p` is a prefix of `s`.
pub open spec fn has_prefix(s: Seq<char>, p: Seq<char>) -> bool {
    p.len() <= s.len() && s.subrange(0, p.len() as int) == p
}

/// Relies on String::push: appends exactly the one character.
#[verifier::external_body]
fn push_char(s: &mut String, c: char)
    ensures
        final(s)@ == old(s)@.push(c),
{
    s.push(c);
}

/// Character-for-character equality of two string slices.
pub fn str_eq(a: &str, b: &str) -> (r: bool)
    ensures
        r == (a@ == b@),
{
    let sa: String = a.to_owned();
    let sb: String = b.to_owned();
    sa == sb
}

/// Whether `s` starts with `p`.
pub fn str_starts_with(s: &str, p: &str) -> (r: bool)
    ensures
        r == has_prefix(s@, p@),
{
    let sl: usize = s.unicode_len();
    let pl: usize = p.unicode_len();
    if pl > sl {
        false
    } else {
        let head: &str = s.substring_char(0, pl);
        str_eq(head, p)
    }
}

/// The hex digits of an address literal: everything after a leading `0x`,
/// or the whole text when no such prefix is present.
pub open spec fn strip_hex_prefix(s: Seq<char>) -> Seq<char> {
    if s.len() >= 2 && s[0] == '0' && s[1] == 'x' {
        s.subrange(2, s.len() as int)
    } else {
        s
    }
}

/// Left-pads the digits with zeros up to 64 characters; longer inputs are
/// kept as they are.
pub open spec fn zero_pad64(h: Seq<char>) -> Seq<char> {
    if h.len() >= 64 {
        h
    } else {
        Seq::new((64 - h.len()) as nat, |i: int| '0') + h
    }
}

/// The standardized form of an on-chain address: `0x` followed by the hex
/// digits left-padded with zeros to 64 characters.
pub open spec fn std_address(s: Seq<char>) -> Seq<char> {
    seq!['0', 'x'] + zero_pad64(strip_hex_prefix(s))
}

/// Standardizes an on-chain address so that textual comparison agrees with
/// address identity: strips an optional `0x`, pads the digits with leading
/// zeros to 64 characters, and puts `0x` back in front.
pub fn standardize_address(addr: &str) -> (r: String)
    ensures
        r@ == std_address(addr@),
{
    proof {
        reveal_strlit("0x");
        reveal_strlit("0");
    }
    let len: usize = addr.unicode_len();
    let hex: &str = if len >= 2 && addr.get_char(0) == '0' && addr.get_char(1) == 'x' {
        addr.substring_char(2, len)
    } else {
        addr
    };
    assert(hex@ == strip_hex_prefix(addr@));
    let hex_len: usize = hex.unicode_len();
    let mut r = String::new();
    r.append("0x");
    assert(r@ =~= seq!['0', 'x']);
    let mut i: usize = hex_len;
    while i < 64
        invariant
            hex_len <= i,
            i <= 64 || i == hex_len,
            r@ == seq!['0', 'x'] + Seq::new((i - hex_len) as nat, |j: int| '0'),
        decreases 64 - i,
    {
        r.append("0");
        proof {
            reveal_strlit("0");
            assert(("0")@ =~= seq!['0']);
            assert(seq!['0', 'x'] + Seq::new((i - hex_len) as nat, |j: int| '0') + seq!['0']
                =~= seq!['0', 'x'] + Seq::new((i + 1 - hex_len) as nat, |j: int| '0'));
        }
        i = i + 1;
    }
    r.append(hex);
    proof {
        if hex_len >= 64 {
            assert(r@ =~= seq!['0', 'x'] + zero_pad64(hex@));
        } else {
            assert(r@ =~= seq!['0', 'x'] + (Seq::new((64 - hex_len) as nat, |j: int| '0') + hex@));
        }
    }
    r
}

/// A `::` separator sits at position `i` of `s`.
pub open spec fn sep_at(s: Seq<char>, i: int) -> bool {
    0 <= i && i + 2 <= s.len() && s[i] == ':' && s[i + 1] == ':'
}

/// The position of the first `::` at or after `from`, if any.
pub open spec fn find_sep_from(s: Seq<char>, from: int) -> Option<int>
    decreases s.len() - from
        when 0 <= from
{
    if from + 2 > s.len() {
        None
    } else if sep_at(s, from) {
        Some(from)
    } else {
        find_sep_from(s, from + 1)
    }
}

/// Finds the first `::` separator at or after `from`.
pub fn find_sep(s: &str, from: usize) -> (r: Option<usize>)
    ensures
        match r {
            Some(i) => find_sep_from(s@, from as int) == Some(i as int) && from <= i && i + 2
                <= s@.len(),
            None => find_sep_from(s@, from as int) is None,
        },
{
    let len: usize = s.unicode_len();
    let mut i: usize = from;
    while i < len && i + 1 < len
        invariant
            from <= i,
            len == s@.len(),
            find_sep_from(s@, from as int) == find_sep_from(s@, i as int),
        decreases len - i,
    {
        if s.get_char(i) == ':' && s.get_char(i + 1) == ':' {
            return Some(i);
        }
        i = i + 1;
    }
    None
}

/// The position of the first occurrence of `c` in `s`, if any.
pub open spec fn find_char_from(s: Seq<char>, c: char, from: int) -> Option<int>
    decreases s.len() - from
        when 0 <= from
{
    if from >= s.len() {
        None
    } else if s[from] == c {
        Some(from)
    } else {
        find_char_from(s, c, from + 1)
    }
}

/// Finds the first occurrence of `c` in `s`.
pub fn find_char(s: &str, c: char) -> (r: Option<usize>)
    ensures
        match r {
            Some(i) => find_char_from(s@, c, 0) == Some(i as int) && i < s@.len(),
            None => find_char_from(s@, c, 0) is None,
        },
{
    let len: usize = s.unicode_len();
    let mut i: usize = 0;
    while i < len
        invariant
            i <= len,
            len == s@.len(),
            find_char_from(s@, c, 0) == find_char_from(s@, c, i as int),
        decreases len - i,
    {
        if s.get_char(i) == c {
            return Some(i);
        }
        i = i + 1;
    }
    None
}

/// `s` with every null character removed.
pub open spec fn without_nulls(s: Seq<char>) -> Seq<char>
    decreases s.len(),
{
    if s.len() == 0 {
        Seq::empty()
    } else if s.last() == '\u{0}' {
        without_nulls(s.drop_last())
    } else {
        without_nulls(s.drop_last()).push(s.last())
    }
}

/// Removes the null characters that the relational backend cannot store.
pub fn remove_null_chars(s: &str) -> (r: String)
    ensures
        r@ == without_nulls(s@),
{
    let len: usize = s.unicode_len();
    let mut r = String::new();
    let mut i: usize = 0;
    while i < len
        invariant
            i <= len,
            len == s@.len(),
            r@ == without_nulls(s@.take(i as int)),
        decreases len - i,
    {
        let c: char = s.get_char(i);
        proof {
            assert(s@.take(i + 1).drop_last() =~= s@.take(i as int));
            assert(s@.take(i + 1).last() == s@[i as int]);
        }
        if c != '\u{0}' {
            push_char(&mut r, c);
        }
        i = i + 1;
    }
    proof {
        assert(s@.take(len as int) =~= s@);
    }
    r
}

} // verus!
