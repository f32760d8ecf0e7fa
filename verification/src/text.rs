//! Text helpers: decoding line bytes, splitting a command line at the first
//! space, prefix tests, and decimal rendering for escape sequences.

use vstd::prelude::*;
use vstd::string::StrSliceExecFns;
use vstd::utf8::{decode_utf8, valid_utf8};

verus! {

/// Relies on `core::str::from_utf8`: it returns `Ok` exactly when the bytes
/// are valid UTF-8, and the returned string is a view of those same bytes
/// (so its characters are their decoding).
#[verifier::external_body]
pub(crate) fn bytes_to_text(bytes: &[u8]) -> (r: Option<&str>)
    ensures
        r is Some <==> valid_utf8(bytes@),
        r matches Some(s) ==> s@ == decode_utf8(bytes@),
{
    core::str::from_utf8(bytes).ok()
}

/// Splits a line at its first space: `(command, arguments)`.  A line without
/// a space is all command, with empty arguments; the space itself belongs to
/// neither part.
pub open spec fn split_at_first_space(line: Seq<char>) -> (Seq<char>, Seq<char>)
    decreases line.len(),
{
    if line.len() == 0 {
        (Seq::empty(), Seq::empty())
    } else if line[0] == ' ' {
        (Seq::empty(), line.drop_first())
    } else {
        let (cmd, args) = split_at_first_space(line.drop_first());
        (seq![line[0]] + cmd, args)
    }
}

proof fn lemma_split_at_index(s: Seq<char>, i: int)
    requires
        0 <= i <= s.len(),
        forall|j: int| 0 <= j < i ==> s[j] != ' ',
        i < s.len() ==> s[i] == ' ',
    ensures
        i == s.len() ==> split_at_first_space(s) == (s, Seq::<char>::empty()),
        i < s.len() ==> split_at_first_space(s).0 == s.take(i) && split_at_first_space(s).1
            == s.skip(i + 1),
    decreases s.len(),
{
    if s.len() == 0 {
        assert(s =~= Seq::<char>::empty());
    } else if i == 0 {
        if 0 < s.len() && s[0] == ' ' {
            assert(split_at_first_space(s).0 =~= s.take(0));
            assert(split_at_first_space(s).1 =~= s.skip(1));
        }
    } else {
        let t = s.drop_first();
        lemma_split_at_index(t, i - 1);
        if i == s.len() {
            assert(seq![s[0]] + t =~= s);
        } else {
            assert(seq![s[0]] + t.take(i - 1) =~= s.take(i));
            assert(t.skip(i) =~= s.skip(i + 1));
        }
    }
}

/// Splits a line at the first space character, as [`split_at_first_space`]
/// describes.
pub fn split_first_space(line: &str) -> (r: (String, String))
    ensures
        r.0@ == split_at_first_space(line@).0,
        r.1@ == split_at_first_space(line@).1,
{
    let n = line.unicode_len();
    let mut i: usize = 0;
    while i < n && line.get_char(i) != ' '
        invariant
            0 <= i <= n,
            n == line@.len(),
            forall|j: int| 0 <= j < i ==> line@[j] != ' ',
        decreases n - i,
    {
        i += 1;
    }
    proof {
        lemma_split_at_index(line@, i as int);
    }
    if i == n {
        assert(line@.take(n as int) =~= line@);
        (line.to_owned(), String::new())
    } else {
        let cmd = line.substring_char(0, i).to_owned();
        let args = line.substring_char(i + 1, n).to_owned();
        assert(line@.subrange(0, i as int) =~= line@.take(i as int));
        assert(line@.subrange(i + 1, n as int) =~= line@.skip(i + 1));
        (cmd, args)
    }
}

/// Whether `prefix` is an initial segment of `s`, character by character.
pub fn str_starts_with(s: &str, prefix: &str) -> (r: bool)
    ensures
        r == prefix@.is_prefix_of(s@),
{
    let n = prefix.unicode_len();
    let m = s.unicode_len();
    if n > m {
        return false;
    }
    let mut i: usize = 0;
    while i < n
        invariant
            0 <= i <= n,
            n == prefix@.len(),
            m == s@.len(),
            n <= m,
            forall|j: int| 0 <= j < i ==> s@[j] == prefix@[j],
        decreases n - i,
    {
        if s.get_char(i) != prefix.get_char(i) {
            return false;
        }
        i += 1;
    }
    assert(prefix@ =~= s@.take(n as int));
    true
}

/// The decimal digits of `n`, most significant first, as ASCII bytes.
pub open spec fn decimal(n: nat) -> Seq<u8>
    decreases n,
{
    if n < 10 {
        seq![(0x30 + n) as u8]
    } else {
        decimal(n / 10).push((0x30 + n % 10) as u8)
    }
}

/// Appends the decimal rendering of `n` to `out`.
pub fn push_decimal(out: &mut Vec<u8>, n: usize)
    ensures
        final(out)@ == old(out)@ + decimal(n as nat),
    decreases n,
{
    if n < 10 {
        out.push(0x30 + (n as u8));
    } else {
        push_decimal(out, n / 10);
        out.push(0x30 + ((n % 10) as u8));
        assert(out@ =~= old(out)@ + decimal(n as nat));
    }
}

} // verus!
