//! Character classification and UTF-8 byte arithmetic.
//!
//! The lexer walks the source as a sequence of `char`s while reporting byte
//! ranges; this module ties the two together: `char_utf8_len` gives the
//! number of bytes a character occupies, and `byte_pos` the byte offset of a
//! character index.  Identifier classification and display width come from
//! the Unicode tables of outside crates, behind trusted wrappers.

use vstd::prelude::*;
use vstd::utf8::{
    encode_scalar, encode_utf8, is_char_boundary, valid_utf8, encode_utf8_valid_utf8,
    encode_utf8_first_scalar, char_is_scalar, pop_first_scalar, length_of_first_scalar,
    valid_first_scalar, valid_utf8_split,
};
use unicode_width::UnicodeWidthChar;
use unicode_xid::UnicodeXID;

verus! {

/// Whether a character satisfies the Unicode `XID_Start` property.
pub uninterp spec fn xid_start(c: char) -> bool;

/// Whether a character satisfies the Unicode `XID_Continue` property.
pub uninterp spec fn xid_continue(c: char) -> bool;

/// The display width of a character, in columns; control characters count 0.
pub uninterp spec fn width_of(c: char) -> nat;

/// Returns true if the character matches the XID_Start Unicode property
///
/// Relies on unicode_xid's `UnicodeXID::is_xid_start`, a pure table lookup
/// on the character.
#[verifier::external_body]
pub fn is_id_start(c: char) -> (r: bool)
    ensures
        r == xid_start(c),
{
    UnicodeXID::is_xid_start(c)
}

/// Returns true if the character matches the XID_Continue Unicode property
///
/// Relies on unicode_xid's `UnicodeXID::is_xid_continue`, a pure table
/// lookup on the character.
#[verifier::external_body]
pub fn is_id_continue(c: char) -> (r: bool)
    ensures
        r == xid_continue(c),
{
    UnicodeXID::is_xid_continue(c)
}

/// The display width of a character: the number of columns it advances.
///
/// Relies on unicode_width's `UnicodeWidthChar::width`, a pure table lookup
/// on the character; control characters report `None` and count 0 columns.
/// The crate's tables store widths of at most 3 columns.
#[verifier::external_body]
pub fn char_width(c: char) -> (w: usize)
    ensures
        w as nat == width_of(c) && w <= 3,
{
    c.width().unwrap_or(0)
}

/// The length in bytes of a character's UTF-8 encoding.
pub open spec fn char_utf8_len(c: char) -> int {
    encode_scalar(c as u32).len() as int
}

/// The byte offset at which the `i`th character of `s` begins, when `s` is
/// encoded as UTF-8.
pub open spec fn byte_pos(s: Seq<char>, i: int) -> int {
    encode_utf8(s.take(i)).len() as int
}

/// A character's UTF-8 encoding takes between 1 and 4 bytes.
pub proof fn lemma_char_utf8_len_bounds(c: char)
    ensures
        1 <= char_utf8_len(c) <= 4,
{
}

/// The number of bytes a character's encoding occupies, as executable code,
/// proved against the reference encoding: one byte below U+0080, two below
/// U+0800, three below U+10000, and four beyond.
pub fn utf8_len(c: char) -> (n: usize)
    ensures
        n == char_utf8_len(c),
{
    proof {
        char_is_scalar(c);
    }
    let u = c as u32;
    if u < 0x80 {
        1
    } else if u < 0x800 {
        2
    } else if u < 0x10000 {
        3
    } else {
        4
    }
}

/// UTF-8 encoding distributes over concatenation of character sequences.
pub proof fn lemma_encode_utf8_concat(a: Seq<char>, b: Seq<char>)
    ensures
        encode_utf8(a + b) == encode_utf8(a) + encode_utf8(b),
    decreases a.len(),
{
    if a.len() == 0 {
        assert(a + b =~= b);
        assert(encode_utf8(a) + encode_utf8(b) =~= encode_utf8(b));
    } else {
        lemma_encode_utf8_concat(a.drop_first(), b);
        assert((a + b).drop_first() =~= a.drop_first() + b);
        assert((a + b)[0] == a[0]);
        assert(encode_utf8(a + b) =~= encode_utf8(a) + encode_utf8(b)) by {
            assert(encode_utf8(a + b) == encode_scalar(a[0] as u32) + encode_utf8(
                a.drop_first() + b,
            ));
            assert(encode_utf8(a) == encode_scalar(a[0] as u32) + encode_utf8(a.drop_first()));
        }
    }
}

/// Byte positions advance by the encoded length of each character passed.
pub proof fn lemma_byte_pos_step(s: Seq<char>, i: int)
    requires
        0 <= i < s.len(),
    ensures
        byte_pos(s, i + 1) == byte_pos(s, i) + char_utf8_len(s[i]),
{
    assert(s.take(i + 1) =~= s.take(i) + seq![s[i]]);
    lemma_encode_utf8_concat(s.take(i), seq![s[i]]);
    assert(encode_utf8(seq![s[i]]) =~= encode_scalar(s[i] as u32)) by {
        assert(seq![s[i]].drop_first() =~= Seq::<char>::empty());
        assert(encode_utf8(seq![s[i]].drop_first()) =~= Seq::<u8>::empty());
    }
}

/// Byte positions are monotone in the character index, grow at least one
/// byte per character, and stay within the encoded length of the source.
pub proof fn lemma_byte_pos_bounds(s: Seq<char>, i: int, j: int)
    requires
        0 <= i <= j <= s.len(),
    ensures
        byte_pos(s, i) + (j - i) <= byte_pos(s, j),
        byte_pos(s, j) <= byte_pos(s, i) + 4 * (j - i),
        byte_pos(s, s.len() as int) == encode_utf8(s).len(),
        byte_pos(s, 0) == 0,
    decreases j - i,
{
    assert(s.take(s.len() as int) =~= s);
    assert(s.take(0) =~= Seq::<char>::empty());
    if i < j {
        lemma_byte_pos_bounds(s, i + 1, j);
        lemma_byte_pos_step(s, i);
        lemma_char_utf8_len_bounds(s[i]);
    }
}

/// Every character-aligned byte position is a character boundary of the
/// encoded source.
pub proof fn lemma_byte_pos_is_boundary(s: Seq<char>, i: int)
    requires
        0 <= i <= s.len(),
    ensures
        is_char_boundary(encode_utf8(s), byte_pos(s, i)),
    decreases i,
{
    encode_utf8_valid_utf8(s);
    if i == 0 {
        lemma_byte_pos_bounds(s, 0, 0);
    } else {
        encode_utf8_first_scalar(s);
        let bytes = encode_utf8(s);
        let rest = s.drop_first();
        let lf = char_utf8_len(s[0]);
        assert(pop_first_scalar(bytes) =~= encode_utf8(rest)) by {
            assert(bytes == encode_scalar(s[0] as u32) + encode_utf8(rest));
            assert(length_of_first_scalar(bytes) == lf);
        }
        lemma_byte_pos_is_boundary(rest, i - 1);
        assert(byte_pos(s, i) == lf + byte_pos(rest, i - 1)) by {
            assert(s.take(i) =~= seq![s[0]] + rest.take(i - 1));
            lemma_encode_utf8_concat(seq![s[0]], rest.take(i - 1));
            assert(encode_utf8(seq![s[0]]) =~= encode_scalar(s[0] as u32)) by {
                assert(seq![s[0]].drop_first() =~= Seq::<char>::empty());
                assert(encode_utf8(seq![s[0]].drop_first()) =~= Seq::<u8>::empty());
            }
        }
        lemma_byte_pos_bounds(s, 0, i);
        lemma_byte_pos_bounds(s, i, s.len() as int);
        encode_utf8_valid_utf8(rest);
        assert(is_char_boundary(bytes, byte_pos(s, i)));
    }
}

/// Over a run of characters that each encode in a single byte, byte
/// positions advance one byte per character.
pub proof fn lemma_byte_pos_ascii_run(s: Seq<char>, i: int, j: int)
    requires
        0 <= i <= j <= s.len(),
        forall|k: int| i <= k < j ==> char_utf8_len(#[trigger] s[k]) == 1,
    ensures
        byte_pos(s, j) == byte_pos(s, i) + (j - i),
    decreases j - i,
{
    if i < j {
        lemma_byte_pos_step(s, i);
        lemma_byte_pos_ascii_run(s, i + 1, j);
    }
}

/// A character boundary below another character boundary is still a
/// boundary of the prefix cut at the higher one.
pub proof fn lemma_boundary_prefix(bytes: Seq<u8>, i: int, j: int)
    requires
        valid_utf8(bytes),
        is_char_boundary(bytes, i),
        is_char_boundary(bytes, j),
        0 <= i <= j <= bytes.len(),
    ensures
        is_char_boundary(bytes.subrange(0, j), i),
    decreases i,
{
    valid_utf8_split(bytes, j);
    if i > 0 {
        let pre = bytes.subrange(0, j);
        assert(valid_first_scalar(bytes));
        let lf = length_of_first_scalar(bytes);
        assert(1 <= lf <= 4);
        let rest = pop_first_scalar(bytes);
        assert(is_char_boundary(rest, i - lf));
        assert(is_char_boundary(rest, j - lf));
        assert(i - lf >= 0);
        assert(j - lf >= 0);
        assert(valid_utf8(rest));
        assert(pre.len() > 0);
        assert(pre[0] == bytes[0]);
        assert(length_of_first_scalar(pre) == lf);
        assert(pop_first_scalar(pre) =~= rest.subrange(0, j - lf));
        lemma_boundary_prefix(rest, i - lf, j - lf);
        assert(is_char_boundary(pre, i));
    }
}

} // verus!
