//! The autocomplete provider: maps the text before the cursor to the
//! remaining suffix of a known command.

use vstd::prelude::*;
use vstd::string::StrSliceExecFns;

use crate::text::str_starts_with;

verus! {

/// A provider of command completions.  `suggest` maps the prefix already
/// typed to the rest of a candidate command; the relation `suggests` is each
/// provider's contract for that answer.
pub trait Autocomplete: Sized {
    /// The provider's internal invariant.
    spec fn inv(&self) -> bool;

    /// How an answer `r` may relate to a queried `prefix`.
    spec fn suggests(&self, prefix: Seq<char>, r: Option<Seq<char>>) -> bool;

    /// The suffix completing `prefix`, if the provider knows one.
    fn suggest(&self, prefix: &str) -> (r: Option<String>)
        requires
            self.inv(),
        ensures
            self.suggests(prefix@, r.deep_view()),
    ;
}

/// The disabled variant: never suggests anything.
pub struct NoAutocomplete;

impl Autocomplete for NoAutocomplete {
    open spec fn inv(&self) -> bool {
        true
    }

    open spec fn suggests(&self, prefix: Seq<char>, r: Option<Seq<char>>) -> bool {
        r is None
    }

    fn suggest(&self, prefix: &str) -> (r: Option<String>) {
        None
    }
}

/// A provider backed by a caller-supplied suggestion function: pure
/// delegation, so an answer is whatever the wrapped function's own
/// postcondition admits for the queried prefix.
pub struct FnAutocomplete<F: Fn(&str) -> Option<String>>(F);

impl<F: Fn(&str) -> Option<String>> FnAutocomplete<F> {
    /// The wrapped suggestion function.
    pub closed spec fn func(&self) -> F {
        self.0
    }

    /// Wraps a suggestion function, which must be callable on every prefix.
    pub fn new(f: F) -> (r: Self)
        requires
            forall|p: &str| f.requires((p,)),
        ensures
            r.inv(),
            r.func() == f,
    {
        FnAutocomplete(f)
    }
}

impl<F: Fn(&str) -> Option<String>> Autocomplete for FnAutocomplete<F> {
    open spec fn inv(&self) -> bool {
        forall|p: &str| self.func().requires((p,))
    }

    open spec fn suggests(&self, prefix: Seq<char>, r: Option<Seq<char>>) -> bool {
        exists|p: &str, ret: Option<String>|
            #[trigger] self.func().ensures((p,), ret) && p@ == prefix && ret.deep_view() == r
    }

    fn suggest(&self, prefix: &str) -> (r: Option<String>) {
        let ret = (self.0)(prefix);
        proof {
            assert(self.func().ensures((prefix,), ret));
        }
        ret
    }
}

/// The first candidate that `prefix` begins, with the prefix removed; an
/// empty prefix never completes to anything.
pub open spec fn static_suggestion(cands: Seq<Seq<char>>, prefix: Seq<char>) -> Option<Seq<char>>
    decreases cands.len(),
{
    if prefix.len() == 0 || cands.len() == 0 {
        None
    } else if prefix.is_prefix_of(cands[0]) {
        Some(cands[0].skip(prefix.len() as int))
    } else {
        static_suggestion(cands.drop_first(), prefix)
    }
}

/// A fixed table of candidate commands, scanned in order.
pub struct StaticAutocomplete<const N: usize>(pub [&'static str; N]);

impl<const N: usize> StaticAutocomplete<N> {
    /// The candidate commands, in table order.
    pub open spec fn candidates(&self) -> Seq<Seq<char>> {
        self.0@.map_values(|s: &'static str| s@)
    }
}

impl<const N: usize> Autocomplete for StaticAutocomplete<N> {
    open spec fn inv(&self) -> bool {
        true
    }

    open spec fn suggests(&self, prefix: Seq<char>, r: Option<Seq<char>>) -> bool {
        r == static_suggestion(self.candidates(), prefix)
    }

    fn suggest(&self, prefix: &str) -> (r: Option<String>) {
        let plen = prefix.unicode_len();
        if plen == 0 {
            return None;
        }
        let mut i: usize = 0;
        proof {
            assert(self.candidates().skip(0) =~= self.candidates());
        }
        while i < N
            invariant
                0 <= i <= N,
                plen == prefix@.len(),
                plen > 0,
                self.candidates().len() == N,
                static_suggestion(self.candidates().skip(i as int), prefix@) == static_suggestion(
                    self.candidates(),
                    prefix@,
                ),
            decreases N - i,
        {
            let item: &'static str = self.0[i];
            proof {
                assert(self.candidates().skip(i as int)[0] == item@);
                assert(self.candidates().skip(i as int).drop_first() =~= self.candidates().skip(
                    i + 1,
                ));
            }
            if str_starts_with(item, prefix) {
                let suffix = item.substring_char(plen, item.unicode_len()).to_owned();
                proof {
                    assert(item@.subrange(plen as int, item@.len() as int) =~= item@.skip(
                        plen as int,
                    ));
                }
                return Some(suffix);
            }
            i += 1;
        }
        proof {
            assert(self.candidates().skip(N as int) =~= Seq::<Seq<char>>::empty());
        }
        None
    }
}

/// An empty prefix never completes: an empty line is not completed to an
/// arbitrary candidate.
pub proof fn lemma_static_suggestion_empty(cands: Seq<Seq<char>>)
    ensures
        static_suggestion(cands, Seq::empty()) is None,
{
}

/// A prefix beginning no candidate yields no suggestion.
pub proof fn lemma_static_suggestion_none(cands: Seq<Seq<char>>, prefix: Seq<char>)
    requires
        forall|j: int| 0 <= j < cands.len() ==> !prefix.is_prefix_of(#[trigger] cands[j]),
    ensures
        static_suggestion(cands, prefix) is None,
    decreases cands.len(),
{
    if prefix.len() > 0 && cands.len() > 0 {
        assert(forall|j: int|
            0 <= j < cands.drop_first().len() ==> cands.drop_first()[j] == cands[j + 1]);
        lemma_static_suggestion_none(cands.drop_first(), prefix);
    }
}

/// A nonempty prefix beginning the candidate at `i` and none before it is
/// answered with exactly that candidate, its first `prefix.len()` characters
/// removed.  When the prefix begins exactly one candidate, that is the one.
pub proof fn lemma_static_suggestion_hit(cands: Seq<Seq<char>>, prefix: Seq<char>, i: int)
    requires
        0 <= i < cands.len(),
        prefix.len() > 0,
        prefix.is_prefix_of(cands[i]),
        forall|j: int| 0 <= j < i ==> !prefix.is_prefix_of(#[trigger] cands[j]),
    ensures
        static_suggestion(cands, prefix) == Some(cands[i].skip(prefix.len() as int)),
    decreases cands.len(),
{
    if i > 0 {
        assert(forall|j: int|
            0 <= j < cands.drop_first().len() ==> cands.drop_first()[j] == cands[j + 1]);
        lemma_static_suggestion_hit(cands.drop_first(), prefix, i - 1);
    }
}

} // verus!
