//! The command-history store: a bounded, deduplicated, recency-ordered log
//! of submitted lines with a back/forward traversal position.

use vstd::prelude::*;
use vstd::utf8::encode_utf8;

verus! {

/// No two stored lines compare equal.
pub open spec fn distinct_lines(s: Seq<Seq<char>>) -> bool {
    forall|i: int, j: int| 0 <= i < j < s.len() ==> s[i] != s[j]
}

/// `entries` with every occurrence of `line` removed, order otherwise kept.
pub open spec fn without(entries: Seq<Seq<char>>, line: Seq<char>) -> Seq<Seq<char>>
    decreases entries.len(),
{
    if entries.len() == 0 {
        Seq::empty()
    } else if entries[0] == line {
        without(entries.drop_first(), line)
    } else {
        seq![entries[0]] + without(entries.drop_first(), line)
    }
}

/// The first `cap` lines of `s`, or all of `s` when it is shorter.
pub open spec fn clip(s: Seq<Seq<char>>, cap: int) -> Seq<Seq<char>> {
    if s.len() <= cap {
        s
    } else {
        s.take(cap)
    }
}

/// The store contents after pushing `line` onto `entries` (most recent
/// first) with capacity `cap`: an empty line, or a zero capacity, changes
/// nothing; otherwise `line` moves to the front — evicting the oldest entry
/// when a new line would overflow the capacity.
pub open spec fn mru_push(entries: Seq<Seq<char>>, line: Seq<char>, cap: int) -> Seq<Seq<char>> {
    if line.len() == 0 || cap <= 0 {
        entries
    } else {
        clip(seq![line] + without(entries, line), cap)
    }
}

/// The store contents after pushing each of `lines` in turn.
pub open spec fn mru_push_all(entries: Seq<Seq<char>>, lines: Seq<Seq<char>>, cap: int) -> Seq<
    Seq<char>,
>
    decreases lines.len(),
{
    if lines.len() == 0 {
        entries
    } else {
        mru_push_all(mru_push(entries, lines[0], cap), lines.drop_first(), cap)
    }
}

/// How many entries compare equal to `line`.
pub open spec fn count_of(entries: Seq<Seq<char>>, line: Seq<char>) -> nat
    decreases entries.len(),
{
    if entries.len() == 0 {
        0
    } else {
        (if entries[0] == line {
            1nat
        } else {
            0nat
        }) + count_of(entries.drop_first(), line)
    }
}

/// A store of previously submitted lines, most recent first, with a
/// traversal position: `0` is the live edit line, `k` is `k` entries back.
pub trait History: Sized {
    /// The stored lines, most recent first.
    spec fn entries(&self) -> Seq<Seq<char>>;

    /// The traversal position.
    spec fn position(&self) -> int;

    /// The store's internal invariant.
    spec fn inv(&self) -> bool;

    /// Whether `push` accepts `line`.
    spec fn accepts(&self, line: Seq<char>) -> bool;

    /// The stored lines after a successful `push` of `line`.
    spec fn pushed(&self, line: Seq<char>) -> Seq<Seq<char>>;

    /// The traversal position always stays within the stored entries.
    proof fn lemma_inv_bounds(&self)
        requires
            self.inv(),
        ensures
            0 <= self.position() <= self.entries().len(),
    ;

    /// Discards all entries and returns the traversal to the live line.
    fn reset(&mut self)
        ensures
            final(self).inv(),
            final(self).entries() == Seq::<Seq<char>>::empty(),
            final(self).position() == 0,
    ;

    /// Records a submitted line and returns the traversal to the live line.
    fn push(&mut self, command: &str) -> (r: Result<(), ()>)
        requires
            old(self).inv(),
        ensures
            final(self).inv(),
            r is Ok <==> old(self).accepts(command@),
            r is Ok ==> final(self).entries() == old(self).pushed(command@) && final(self).position() == 0,
            r is Err ==> final(self).entries() == old(self).entries() && final(self).position()
                == old(self).position(),
    ;

    /// Steps the traversal one entry toward the oldest and returns that
    /// entry, or returns nothing when already at the oldest (or the store is
    /// empty).
    fn go_back(&mut self) -> (r: Option<String>)
        requires
            old(self).inv(),
        ensures
            final(self).inv(),
            final(self).entries() == old(self).entries(),
            old(self).position() == old(self).entries().len() ==> r is None && final(self).position() == old(self).position(),
            old(self).position() < old(self).entries().len() ==> final(self).position() == old(self).position() + 1 && (r matches Some(line) && line@ == old(self).entries()[old(self).position()]),
    ;

    /// Steps the traversal one entry toward the newest and returns that
    /// entry, or returns nothing when already at the live line.
    fn go_forward(&mut self) -> (r: Option<String>)
        requires
            old(self).inv(),
        ensures
            final(self).inv(),
            final(self).entries() == old(self).entries(),
            old(self).position() == 0 ==> r is None && final(self).position() == 0,
            old(self).position() > 0 ==> final(self).position() == old(self).position() - 1 && (
            r matches Some(line) && line@ == old(self).entries()[old(self).position() - 1]),
    ;
}

/// The disabled history variant: stores nothing, answers every call as a
/// no-op.
pub struct NoHistory;

impl History for NoHistory {
    open spec fn entries(&self) -> Seq<Seq<char>> {
        Seq::empty()
    }

    open spec fn position(&self) -> int {
        0
    }

    open spec fn inv(&self) -> bool {
        true
    }

    open spec fn accepts(&self, line: Seq<char>) -> bool {
        true
    }

    open spec fn pushed(&self, line: Seq<char>) -> Seq<Seq<char>> {
        Seq::empty()
    }

    proof fn lemma_inv_bounds(&self) {
    }

    fn reset(&mut self) {
    }

    fn push(&mut self, command: &str) -> (r: Result<(), ()>) {
        Ok(())
    }

    fn go_back(&mut self) -> (r: Option<String>) {
        None
    }

    fn go_forward(&mut self) -> (r: Option<String>) {
        None
    }
}

/// A bounded history store: at most `CAP` lines of at most `CMD_LEN` bytes
/// each, most recent first, deduplicated by content.
pub struct LRUHistory<const CMD_LEN: usize, const CAP: usize> {
    store: Vec<String>,
    cursor: usize,
}

impl<const CMD_LEN: usize, const CAP: usize> LRUHistory<CMD_LEN, CAP> {
    /// The stored lines as character sequences, most recent first.
    pub closed spec fn lines(&self) -> Seq<Seq<char>> {
        self.store@.map_values(|s: String| s@)
    }

    pub closed spec fn wf(&self) -> bool {
        &&& self.store@.len() <= CAP
        &&& self.cursor <= self.store@.len()
        &&& distinct_lines(self.lines())
        &&& forall|i: int| 0 <= i < self.lines().len() ==> (#[trigger] self.lines()[i]).len() > 0
        &&& forall|i: int|
            0 <= i < self.lines().len() ==> encode_utf8(#[trigger] self.lines()[i]).len()
                <= CMD_LEN
    }

    /// The first stored line equal to `cmd`, if any.
    fn find_index(&self, cmd: &String) -> (r: Option<usize>)
        ensures
            match r {
                Some(i) => i < self.lines().len() && self.lines()[i as int] == cmd@,
                None => !self.lines().contains(cmd@),
            },
    {
        let mut k: usize = 0;
        while k < self.store.len()
            invariant
                0 <= k <= self.store@.len(),
                forall|j: int| 0 <= j < k ==> self.lines()[j] != cmd@,
            decreases self.store@.len() - k,
        {
            if self.store[k] == *cmd {
                return Some(k);
            }
            k += 1;
        }
        None
    }
}

impl<const CMD_LEN: usize, const CAP: usize> LRUHistory<CMD_LEN, CAP> {
    /// What the store's invariant guarantees, for callers: at most `CAP`
    /// pairwise-distinct entries, each nonempty and at most `CMD_LEN` bytes
    /// once encoded, with the traversal position within them.
    pub proof fn lemma_inv_facts(&self)
        requires
            self.inv(),
        ensures
            self.entries().len() <= CAP as int,
            0 <= self.position() <= self.entries().len(),
            distinct_lines(self.entries()),
            forall|i: int|
                0 <= i < self.entries().len() ==> (#[trigger] self.entries()[i]).len() > 0,
            forall|i: int|
                0 <= i < self.entries().len() ==> encode_utf8(#[trigger] self.entries()[i]).len()
                    <= CMD_LEN as int,
    {
    }
}

impl<const CMD_LEN: usize, const CAP: usize> Default for LRUHistory<CMD_LEN, CAP> {
    /// An empty store at the live edit line.
    fn default() -> (r: Self)
        ensures
            r.inv(),
            r.entries() == Seq::<Seq<char>>::empty(),
            r.position() == 0,
    {
        let r = LRUHistory { store: Vec::new(), cursor: 0 };
        proof {
            assert(r.lines() =~= Seq::<Seq<char>>::empty());
        }
        r
    }
}

impl<const CMD_LEN: usize, const CAP: usize> History for LRUHistory<CMD_LEN, CAP> {
    closed spec fn entries(&self) -> Seq<Seq<char>> {
        self.lines()
    }

    closed spec fn position(&self) -> int {
        self.cursor as int
    }

    closed spec fn inv(&self) -> bool {
        self.wf()
    }

    /// A push is refused only for a new line that does not fit in `CMD_LEN`
    /// bytes.
    open spec fn accepts(&self, line: Seq<char>) -> bool {
        !(CAP > 0 && line.len() > 0 && encode_utf8(line).len() > CMD_LEN)
    }

    open spec fn pushed(&self, line: Seq<char>) -> Seq<Seq<char>> {
        mru_push(self.entries(), line, CAP as int)
    }

    proof fn lemma_inv_bounds(&self) {
    }

    fn reset(&mut self) {
        self.cursor = 0;
        self.store = Vec::new();
        proof {
            assert(self.lines() =~= Seq::<Seq<char>>::empty());
        }
    }

    fn push(&mut self, command: &str) -> (r: Result<(), ()>) {
        proof {
            lemma_encode_len_zero(command@);
        }
        let cb = command.as_bytes();
        if cb.len() > 0 && CAP > 0 {
            let ghost pre = *self;
            let cmd: String = command.to_owned();
            match self.find_index(&cmd) {
                Some(i) => {
                    let entry = self.store.remove(i);
                    self.store.insert(0, entry);
                    proof {
                        lemma_without_at_found(pre.lines(), command@, i as int);
                        assert forall|k: int| 0 <= k < self.lines().len() implies #[trigger] self.lines()[k] == (
                        seq![command@] + pre.lines().remove(i as int))[k] by {
                            assert(self.store@[k] == pre.store@.remove(i as int).insert(
                                0,
                                pre.store@[i as int],
                            )[k]);
                        }
                        assert(self.lines() =~= seq![command@] + pre.lines().remove(i as int));
                        lemma_move_to_front_wf(pre.lines(), command@, i as int);
                        assert(self.entries() == pre.pushed(command@));
                        lemma_members_keep_bounds::<CMD_LEN, CAP>(pre, *self, command@);
                    }
                }
                None => {
                    if cb.len() > CMD_LEN {
                        return Err(());
                    }
                    if self.store.len() == CAP {
                        let _ = self.store.pop();
                    }
                    self.store.insert(0, cmd);
                    proof {
                        lemma_without_absent(pre.lines(), command@);
                        if pre.lines().len() == CAP {
                            assert(self.lines() =~= (seq![command@] + pre.lines()).take(
                                CAP as int,
                            ));
                        } else {
                            assert(self.lines() =~= seq![command@] + pre.lines());
                        }
                        lemma_insert_front_wf(pre.lines(), command@, CAP as int);
                        assert(self.entries() == pre.pushed(command@));
                        lemma_members_keep_bounds::<CMD_LEN, CAP>(pre, *self, command@);
                    }
                }
            }
        }
        self.cursor = 0;
        Ok(())
    }

    fn go_back(&mut self) -> (r: Option<String>) {
        if self.store.len() == 0 || self.cursor == self.store.len() {
            None
        } else {
            let cursor = self.cursor;
            self.cursor = self.cursor + 1;
            Some(self.store[cursor].clone())
        }
    }

    fn go_forward(&mut self) -> (r: Option<String>) {
        if self.cursor == 0 || self.store.len() == 0 {
            None
        } else {
            self.cursor = self.cursor - 1;
            let cursor = self.cursor;
            Some(self.store[cursor].clone())
        }
    }
}

/// A line's UTF-8 encoding is empty exactly when the line is.
proof fn lemma_encode_len_zero(s: Seq<char>)
    ensures
        (encode_utf8(s).len() == 0) <==> (s.len() == 0),
{
    if s.len() > 0 {
        vstd::utf8::char_is_scalar(s[0]);
        assert(vstd::utf8::encode_scalar(s[0] as u32).len() >= 1);
    }
}

/// Lines drawn from a well-formed store, or equal to one fitting nonempty
/// line, are all nonempty and fit.
proof fn lemma_members_keep_bounds<const CMD_LEN: usize, const CAP: usize>(
    pre: LRUHistory<CMD_LEN, CAP>,
    post: LRUHistory<CMD_LEN, CAP>,
    line: Seq<char>,
)
    requires
        pre.wf(),
        line.len() > 0,
        encode_utf8(line).len() <= CMD_LEN,
        forall|k: int|
            0 <= k < post.lines().len() ==> (#[trigger] post.lines()[k] == line
                || pre.lines().contains(post.lines()[k])),
    ensures
        forall|i: int| 0 <= i < post.lines().len() ==> (#[trigger] post.lines()[i]).len() > 0,
        forall|i: int|
            0 <= i < post.lines().len() ==> encode_utf8(#[trigger] post.lines()[i]).len()
                <= CMD_LEN,
{
    assert forall|i: int|
        0 <= i < post.lines().len() implies (#[trigger] post.lines()[i]).len() > 0 && encode_utf8(
        post.lines()[i],
    ).len() <= CMD_LEN by {
        if post.lines()[i] != line {
            let m = choose|m: int| 0 <= m < pre.lines().len() && pre.lines()[m] == post.lines()[i];
            assert(pre.lines()[m].len() > 0);
            assert(encode_utf8(pre.lines()[m]).len() <= CMD_LEN);
        }
    }
}

/// In a duplicate-free store, removing the hit is removing every occurrence.
proof fn lemma_without_at_found(entries: Seq<Seq<char>>, line: Seq<char>, i: int)
    requires
        distinct_lines(entries),
        0 <= i < entries.len(),
        entries[i] == line,
    ensures
        without(entries, line) == entries.remove(i),
    decreases entries.len(),
{
    if i == 0 {
        lemma_without_absent(entries.drop_first(), line);
        assert(entries.drop_first() =~= entries.remove(0));
    } else {
        lemma_without_at_found(entries.drop_first(), line, i - 1);
        assert(seq![entries[0]] + entries.drop_first().remove(i - 1) =~= entries.remove(i));
    }
}

/// Removing a line that is not stored changes nothing.
proof fn lemma_without_absent(entries: Seq<Seq<char>>, line: Seq<char>)
    requires
        !entries.contains(line),
    ensures
        without(entries, line) == entries,
    decreases entries.len(),
{
    if entries.len() > 0 {
        assert(entries[0] != line);
        assert(!entries.drop_first().contains(line)) by {
            if entries.drop_first().contains(line) {
                let k = choose|k: int|
                    0 <= k < entries.drop_first().len() && entries.drop_first()[k] == line;
                assert(entries[k + 1] == line);
            }
        }
        lemma_without_absent(entries.drop_first(), line);
        assert(seq![entries[0]] + entries.drop_first() =~= entries);
    } else {
        assert(without(entries, line) =~= entries);
    }
}

/// `without` never keeps an occurrence of the removed line, and keeps only
/// lines of the store.
proof fn lemma_without_members(entries: Seq<Seq<char>>, line: Seq<char>)
    ensures
        !without(entries, line).contains(line),
        forall|k: int|
            0 <= k < without(entries, line).len() ==> entries.contains(
                #[trigger] without(entries, line)[k],
            ),
    decreases entries.len(),
{
    if entries.len() > 0 {
        lemma_without_members(entries.drop_first(), line);
        assert forall|k: int| 0 <= k < without(entries, line).len() implies entries.contains(
            #[trigger] without(entries, line)[k],
        ) by {
            let w = without(entries, line);
            let t = without(entries.drop_first(), line);
            if entries[0] == line {
                let m = choose|m: int| 0 <= m < entries.drop_first().len() && entries.drop_first()[m] == t[k];
                assert(entries[m + 1] == w[k]);
            } else {
                if k > 0 {
                    let m = choose|m: int|
                        0 <= m < entries.drop_first().len() && entries.drop_first()[m] == t[k - 1];
                    assert(entries[m + 1] == w[k]);
                } else {
                    assert(entries[0] == w[0]);
                }
            }
        }
    }
}

/// Moving the hit of a duplicate-free well-formed store to the front keeps
/// it well formed.
proof fn lemma_move_to_front_wf(entries: Seq<Seq<char>>, line: Seq<char>, i: int)
    requires
        distinct_lines(entries),
        0 <= i < entries.len(),
        entries[i] == line,
    ensures
        distinct_lines(seq![line] + entries.remove(i)),
        (seq![line] + entries.remove(i)).len() == entries.len(),
        forall|k: int|
            0 <= k < entries.len() ==> entries.contains(
                #[trigger] (seq![line] + entries.remove(i))[k],
            ),
{
    let after = seq![line] + entries.remove(i);
    assert forall|j: int, k: int| 0 <= j < k < after.len() implies after[j] != after[k] by {
        if j == 0 {
            if k - 1 < i {
                assert(after[k] == entries[k - 1]);
            } else {
                assert(after[k] == entries[k]);
            }
        } else {
            if j - 1 < i {
                assert(after[j] == entries[j - 1]);
            } else {
                assert(after[j] == entries[j]);
            }
            if k - 1 < i {
                assert(after[k] == entries[k - 1]);
            } else {
                assert(after[k] == entries[k]);
            }
        }
    }
    assert forall|k: int| 0 <= k < entries.len() implies entries.contains(#[trigger] after[k]) by {
        if k == 0 {
            assert(entries[i] == after[0]);
        } else if k - 1 < i {
            assert(entries[k - 1] == after[k]);
        } else {
            assert(entries[k] == after[k]);
        }
    }
}

/// Putting a fresh line at the front of a duplicate-free store (evicting the
/// oldest entry if need be) keeps it duplicate-free, and keeps only the fresh
/// line and stored lines.
proof fn lemma_insert_front_wf(entries: Seq<Seq<char>>, line: Seq<char>, cap: int)
    requires
        distinct_lines(entries),
        !entries.contains(line),
        line.len() > 0,
        cap > 0,
    ensures
        distinct_lines(mru_push(entries, line, cap)),
        forall|k: int|
            0 <= k < mru_push(entries, line, cap).len() ==> (#[trigger] mru_push(
                entries,
                line,
                cap,
            )[k] == line || entries.contains(mru_push(entries, line, cap)[k])),
{
    lemma_without_absent(entries, line);
    let moved = seq![line] + entries;
    assert forall|j: int, k: int| 0 <= j < k < moved.len() implies moved[j] != moved[k] by {
        if j == 0 {
            assert(entries[k - 1] == moved[k]);
        }
    }
    assert(distinct_lines(moved));
    let result = mru_push(entries, line, cap);
    assert forall|j: int, k: int| 0 <= j < k < result.len() implies result[j] != result[k] by {
        assert(result[j] == moved[j]);
        assert(result[k] == moved[k]);
    }
    assert forall|k: int| 0 <= k < result.len() implies (#[trigger] result[k] == line
        || entries.contains(result[k])) by {
        assert(result[k] == moved[k]);
        if k > 0 {
            assert(entries[k - 1] == result[k]);
        }
    }
}

/// No entry equals `line`, so none is counted.
proof fn lemma_count_absent(entries: Seq<Seq<char>>, line: Seq<char>)
    requires
        forall|i: int| 0 <= i < entries.len() ==> entries[i] != line,
    ensures
        count_of(entries, line) == 0,
    decreases entries.len(),
{
    if entries.len() > 0 {
        assert(forall|i: int|
            0 <= i < entries.drop_first().len() ==> entries.drop_first()[i] == entries[i + 1]);
        lemma_count_absent(entries.drop_first(), line);
    }
}

/// A sequence whose only occurrence of `line` is its head counts it once.
proof fn lemma_count_head_only(entries: Seq<Seq<char>>, line: Seq<char>)
    requires
        entries.len() > 0,
        entries[0] == line,
        forall|i: int| 1 <= i < entries.len() ==> entries[i] != line,
    ensures
        count_of(entries, line) == 1,
{
    assert(forall|i: int|
        0 <= i < entries.drop_first().len() ==> entries.drop_first()[i] == entries[i + 1]);
    lemma_count_absent(entries.drop_first(), line);
}

/// Pushing a nonempty line onto any store leaves exactly one entry equal to
/// it, and pushing the same line again changes nothing: a line submitted
/// twice in a row yields a single history entry.
pub proof fn lemma_mru_push_dedup(entries: Seq<Seq<char>>, line: Seq<char>, cap: int)
    requires
        line.len() > 0,
        cap > 0,
    ensures
        count_of(mru_push(entries, line, cap), line) == 1,
        mru_push(mru_push(entries, line, cap), line, cap) == mru_push(entries, line, cap),
{
    lemma_without_members(entries, line);
    let w = without(entries, line);
    let moved = seq![line] + w;
    let r = mru_push(entries, line, cap);
    assert(r == clip(moved, cap));
    assert(r[0] == line);
    assert forall|i: int| 1 <= i < r.len() implies r[i] != line by {
        assert(r[i] == moved[i]);
        assert(moved[i] == w[i - 1]);
        if w[i - 1] == line {
            assert(w.contains(line));
        }
    }
    lemma_count_head_only(r, line);
    // Pushing again: `line` heads the store, the rest holds no copy of it.
    assert forall|i: int| 0 <= i < r.drop_first().len() implies r.drop_first()[i] != line by {
        assert(r.drop_first()[i] == r[i + 1]);
    }
    if r.drop_first().contains(line) {
        let k = choose|k: int| 0 <= k < r.drop_first().len() && r.drop_first()[k] == line;
        assert(r.drop_first()[k] != line);
    }
    lemma_without_absent(r.drop_first(), line);
    assert(without(r, line) == without(r.drop_first(), line));
    assert(seq![line] + r.drop_first() =~= r);
    assert(mru_push(r, line, cap) == clip(r, cap));
    assert(clip(r, cap) == r);
}

/// Pushing a line the store already holds keeps the entry count: the hit
/// moves to the front, nothing is inserted and nothing evicted.
pub proof fn lemma_mru_push_duplicate_count(entries: Seq<Seq<char>>, line: Seq<char>, cap: int)
    requires
        cap > 0,
        line.len() > 0,
        distinct_lines(entries),
        entries.contains(line),
        entries.len() <= cap,
    ensures
        mru_push(entries, line, cap).len() == entries.len(),
{
    let i = choose|i: int| 0 <= i < entries.len() && entries[i] == line;
    lemma_without_at_found(entries, line, i);
}

/// Decomposing a reversal at its first element.
proof fn lemma_reverse_unfold(s: Seq<Seq<char>>)
    requires
        s.len() > 0,
    ensures
        s.reverse() == s.drop_first().reverse() + seq![s[0]],
{
    assert(s.reverse() =~= s.drop_first().reverse() + seq![s[0]]);
}

/// Shortening before or after prepending comes to the same.
proof fn lemma_clip_absorb(a: Seq<Seq<char>>, b: Seq<Seq<char>>, cap: int)
    requires
        cap >= 0,
    ensures
        clip(a + clip(b, cap), cap) == clip(a + b, cap),
{
    if b.len() > cap {
        assert(clip(a + b.take(cap), cap) =~= clip(a + b, cap));
    }
}

/// Pushing lines that are pairwise distinct, nonempty, and absent from a
/// store no larger than the capacity stacks them in front, most recent
/// first, shortened to the capacity.
proof fn lemma_mru_push_all_fresh(entries: Seq<Seq<char>>, lines: Seq<Seq<char>>, cap: int)
    requires
        cap > 0,
        entries.len() <= cap,
        distinct_lines(lines),
        forall|i: int| 0 <= i < lines.len() ==> (#[trigger] lines[i]).len() > 0,
        forall|i: int| 0 <= i < lines.len() ==> !entries.contains(#[trigger] lines[i]),
    ensures
        mru_push_all(entries, lines, cap) == clip(lines.reverse() + entries, cap),
    decreases lines.len(),
{
    if lines.len() == 0 {
        assert(lines.reverse() + entries =~= entries);
    } else {
        let l1 = lines[0];
        let rest = lines.drop_first();
        lemma_without_absent(entries, l1);
        let t = clip(seq![l1] + entries, cap);
        assert(mru_push(entries, l1, cap) == t);
        assert forall|i: int| 0 <= i < rest.len() implies !t.contains(#[trigger] rest[i]) by {
            assert(rest[i] == lines[i + 1]);
            if t.contains(rest[i]) {
                let k = choose|k: int| 0 <= k < t.len() && t[k] == rest[i];
                assert(t[k] == (seq![l1] + entries)[k]);
                if k == 0 {
                    assert(lines[0] == lines[i + 1]);
                } else {
                    assert(entries[k - 1] == lines[i + 1]);
                }
            }
        }
        assert forall|i: int, j: int| 0 <= i < j < rest.len() implies rest[i] != rest[j] by {
            assert(rest[i] == lines[i + 1]);
            assert(rest[j] == lines[j + 1]);
        }
        lemma_mru_push_all_fresh(t, rest, cap);
        lemma_clip_absorb(rest.reverse(), seq![l1] + entries, cap);
        lemma_reverse_unfold(lines);
        assert(rest.reverse() + (seq![l1] + entries) =~= lines.reverse() + entries);
    }
}

/// History order and eviction: pushing nonempty, pairwise distinct lines
/// into an empty store leaves the most recently pushed `cap` of them, most
/// recent first; when no more lines were pushed than the capacity, that is
/// all of them in reverse push order, so successive backward steps return
/// them from the newest back to the oldest.
pub proof fn lemma_history_order(lines: Seq<Seq<char>>, cap: int)
    requires
        cap > 0,
        distinct_lines(lines),
        forall|i: int| 0 <= i < lines.len() ==> (#[trigger] lines[i]).len() > 0,
    ensures
        mru_push_all(Seq::empty(), lines, cap) == clip(lines.reverse(), cap),
        lines.len() <= cap ==> mru_push_all(Seq::empty(), lines, cap) == lines.reverse(),
{
    lemma_mru_push_all_fresh(Seq::empty(), lines, cap);
    assert(lines.reverse() + Seq::<Seq<char>>::empty() =~= lines.reverse());
    assert(lines.reverse().len() == lines.len());
}

} // verus!
