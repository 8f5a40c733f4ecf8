//! An in-memory repository model and the revision-expression resolver.
//!
//! A commit knows its parents by index; a parent is always older, that is,
//! has a smaller index, so a larger index means a more recent commit. A
//! revision expression either names one commit by identifier, or is a range
//! `from..to`: every commit reachable from `to` but not from `from`, handed
//! out newest first.

use vstd::prelude::*;

use crate::error::RunError;
use crate::text::chars_of;
use crate::text::copy_range;
use crate::text::string_from_chars;

verus! {

/// One commit of the model: an identifier, the raw message text, and the
/// indices of its parents.
#[derive(Debug)]
pub struct Commit {
    pub id: String,
    pub message: String,
    pub parents: Vec<usize>,
}

/// An identifier together with its raw message text, as resolution hands
/// commits out.
#[derive(Debug, PartialEq, Eq)]
pub struct CommitRecord {
    pub id: String,
    pub message: String,
}

/// The record carrying the same identifier and message as `c`.
pub open spec fn record_of(c: Commit) -> CommitRecord {
    CommitRecord { id: c.id, message: c.message }
}

/// Every parent of the commit at `i` is older than it.
pub open spec fn wf_at(r: Seq<Commit>, i: int) -> bool {
    forall|pi: int| 0 <= pi < r[i].parents@.len() ==> (#[trigger] r[i].parents@[pi]) < i
}

/// Well-formed history: parents strictly older, identifiers distinct.
pub open spec fn wf_seq(r: Seq<Commit>) -> bool {
    &&& forall|i: int| 0 <= i < r.len() ==> wf_at(r, i)
    &&& forall|i: int, j: int| 0 <= i < j < r.len() ==> (#[trigger] r[i].id@) != (#[trigger] r[j].id@)
}

/// Whether the commit at `target` is reachable from the commit at `from` by
/// following parent links (every commit reaches itself).
pub open spec fn reachable(r: Seq<Commit>, from: int, target: int) -> bool
    decreases from
        when 0 <= from < r.len() && wf_seq(r)
        via reachable_decreases
{
    from == target || exists|pi: int|
        0 <= pi < r[from].parents@.len() && reachable(
            r,
            #[trigger] r[from].parents@[pi] as int,
            target,
        )
}

#[via_fn]
proof fn reachable_decreases(r: Seq<Commit>, from: int, target: int) {
    assert(wf_at(r, from));
}

/// Reachability follows parent edges: what reaches a commit reaches each of
/// that commit's parents.
pub proof fn lemma_reachable_step(r: Seq<Commit>, from: int, mid: int, pi: int)
    requires
        wf_seq(r),
        0 <= from < r.len(),
        0 <= mid < r.len(),
        reachable(r, from, mid),
        0 <= pi < r[mid].parents@.len(),
    ensures
        reachable(r, from, r[mid].parents@[pi] as int),
    decreases from,
{
    assert(wf_at(r, mid));
    let p = r[mid].parents@[pi] as int;
    assert(p < r.len());
    if from == mid {
        assert(reachable(r, p, p));
    } else {
        assert(wf_at(r, from));
        let qi = choose|qi: int|
            0 <= qi < r[from].parents@.len() && reachable(
                r,
                #[trigger] r[from].parents@[qi] as int,
                mid,
            );
        assert((r[from].parents@[qi] as int) < from);
        lemma_reachable_step(r, r[from].parents@[qi] as int, mid, pi);
    }
}

/// In a history whose marking is closed under parent edges and holds at
/// `from`, every commit reachable from `from` is marked.
proof fn lemma_marks_complete(r: Seq<Commit>, marks: Seq<bool>, from: int, target: int)
    requires
        wf_seq(r),
        marks.len() == r.len(),
        0 <= from < r.len(),
        0 <= target < r.len(),
        marks[from],
        forall|c: int, pi: int|
            0 <= c < r.len() && marks[c] && 0 <= pi < r[c].parents@.len() ==> marks[(
            #[trigger] r[c].parents@[pi]) as int],
        reachable(r, from, target),
    ensures
        marks[target],
    decreases from,
{
    if from == target {
    } else {
        assert(wf_at(r, from));
        let pi = choose|pi: int|
            0 <= pi < r[from].parents@.len() && reachable(
                r,
                #[trigger] r[from].parents@[pi] as int,
                target,
            );
        assert((r[from].parents@[pi] as int) < from);
        lemma_marks_complete(r, marks, r[from].parents@[pi] as int, target);
    }
}

/// Mark exactly the commits reachable from `start`.
fn mark_reachable(commits: &Vec<Commit>, start: usize) -> (marks: Vec<bool>)
    requires
        wf_seq(commits@),
        start < commits.len(),
    ensures
        marks.len() == commits.len(),
        forall|j: int|
            0 <= j < marks.len() ==> ((#[trigger] marks@[j]) <==> reachable(
                commits@,
                start as int,
                j,
            )),
{
    let n = commits.len();
    let mut marks: Vec<bool> = Vec::new();
    let mut z: usize = 0;
    while z < n
        invariant
            z <= n,
            marks.len() == z,
            forall|j: int| 0 <= j < z ==> !(#[trigger] marks@[j]),
        decreases n - z,
    {
        marks.push(false);
        z = z + 1;
    }
    marks[start] = true;
    let mut i = n;
    while i > 0
        invariant
            i <= n,
            n == commits.len(),
            marks.len() == n,
            wf_seq(commits@),
            start < n,
            marks@[start as int],
            forall|j: int| 0 <= j < n && #[trigger] marks@[j] ==> reachable(
                commits@,
                start as int,
                j,
            ),
            forall|c: int, pi: int|
                i <= c < n && marks@[c] && 0 <= pi < commits@[c].parents@.len() ==> marks@[(
                #[trigger] commits@[c].parents@[pi]) as int],
        decreases i,
    {
        i = i - 1;
        if marks[i] {
            let parents = &commits[i].parents;
            let mut q: usize = 0;
            while q < parents.len()
                invariant
                    q <= parents.len(),
                    i < n,
                    n == commits.len(),
                    marks.len() == n,
                    wf_seq(commits@),
                    start < n,
                    parents@ == commits@[i as int].parents@,
                    marks@[start as int],
                    marks@[i as int],
                    forall|j: int| 0 <= j < n && #[trigger] marks@[j] ==> reachable(
                        commits@,
                        start as int,
                        j,
                    ),
                    forall|c: int, pi: int|
                        i < c < n && marks@[c] && 0 <= pi < commits@[c].parents@.len() ==> marks@[(
                        #[trigger] commits@[c].parents@[pi]) as int],
                    forall|pi: int|
                        0 <= pi < q ==> marks@[(#[trigger] commits@[i as int].parents@[pi]) as int],
                decreases parents.len() - q,
            {
                proof {
                    assert(wf_at(commits@, i as int));
                    lemma_reachable_step(commits@, start as int, i as int, q as int);
                }
                let p = parents[q];
                let ghost om = marks@;
                marks[p] = true;
                proof {
                    assert((p as int) < i as int);
                    assert forall|c: int, pi2: int|
                        i < c < n && marks@[c] && 0 <= pi2 < commits@[c].parents@.len()
                            implies marks@[(#[trigger] commits@[c].parents@[pi2]) as int] by {
                        let x = (commits@[c].parents@[pi2]) as int;
                        assert(wf_at(commits@, c));
                        assert(om[c]);
                        assert(om[x]);
                        assert(marks@ == om.update(p as int, true));
                        assert(marks@[x] == om.update(p as int, true)[x]);
                    }
                    assert forall|j: int|
                        0 <= j < n && #[trigger] marks@[j] implies reachable(
                        commits@,
                        start as int,
                        j,
                    ) by {
                        if j != p as int {
                            assert(om[j]);
                        }
                    }
                }
                q = q + 1;
            }
        }
    }
    proof {
        assert forall|j: int|
            0 <= j < marks.len() && reachable(commits@, start as int, j) implies marks@[j] by {
            lemma_marks_complete(commits@, marks@, start as int, j);
        }
    }
    marks
}

/// The index of the commit carrying `id`, if any (unique in a well-formed
/// history).
pub open spec fn spec_find(r: Seq<Commit>, id: Seq<char>) -> Option<int> {
    if exists|i: int| 0 <= i < r.len() && (#[trigger] r[i].id@) == id {
        Some(choose|i: int| 0 <= i < r.len() && (#[trigger] r[i].id@) == id)
    } else {
        None
    }
}

fn find_index(commits: &Vec<Commit>, id: &String) -> (r: Option<usize>)
    ensures
        match r {
            Some(i) => i < commits.len() && commits@[i as int].id@ == id@,
            None => forall|i: int| 0 <= i < commits@.len() ==> (#[trigger] commits@[i].id@) != id@,
        },
{
    let mut i: usize = 0;
    while i < commits.len()
        invariant
            i <= commits.len(),
            forall|j: int| 0 <= j < i ==> (#[trigger] commits@[j].id@) != id@,
        decreases commits.len() - i,
    {
        if commits[i].id == *id {
            return Some(i);
        }
        i = i + 1;
    }
    None
}

/// Whether the commit at `j` belongs to the range `from..to`: reachable from
/// `to` but not from `from`.
pub open spec fn selected(r: Seq<Commit>, from: int, to: int, j: int) -> bool {
    reachable(r, to, j) && !reachable(r, from, j)
}

/// The records of the commits of `from..to` with indices in `[low, len)`,
/// newest (largest index) first.
pub open spec fn range_records(r: Seq<Commit>, from: int, to: int, low: int) -> Seq<CommitRecord>
    decreases r.len() - low,
{
    if low < 0 || low >= r.len() {
        Seq::empty()
    } else {
        range_records(r, from, to, low + 1) + (if selected(r, from, to, low) {
            seq![record_of(r[low])]
        } else {
            Seq::<CommitRecord>::empty()
        })
    }
}

/// Index of the first `..` in `s`, or its length if there is none.
pub open spec fn dotdot_at(s: Seq<char>) -> nat
    decreases s.len(),
{
    if s.len() < 2 {
        s.len()
    } else if s[0] == '.' && s[1] == '.' {
        0
    } else {
        1 + dotdot_at(s.drop_first())
    }
}

proof fn lemma_dotdot_at_is(s: Seq<char>, k: int)
    requires
        0 <= k <= s.len(),
        forall|i: int| 0 <= i < k ==> !((#[trigger] s[i]) == '.' && i + 1 < s.len() && s[i + 1] == '.'),
        k < s.len() ==> (s[k] == '.' && k + 1 < s.len() && s[k + 1] == '.'),
    ensures
        dotdot_at(s) == k,
    decreases s.len(),
{
    if s.len() < 2 {
        assert(k == s.len());
    } else if s[0] == '.' && s[1] == '.' {
        assert(k == 0);
    } else {
        assert(k > 0);
        lemma_dotdot_at_is(s.drop_first(), k - 1);
    }
}

fn find_dotdot(chars: &Vec<char>) -> (r: usize)
    ensures
        r <= chars.len(),
        forall|i: int|
            0 <= i < r ==> !((#[trigger] chars@[i]) == '.' && i + 1 < chars@.len() && chars@[i + 1]
                == '.'),
        r < chars.len() ==> (chars@[r as int] == '.' && r + 1 < chars@.len() && chars@[r + 1]
            == '.'),
{
    let n = chars.len();
    let mut i: usize = 0;
    while n - i > 1
        invariant
            i <= n,
            n == chars.len(),
            forall|j: int|
                0 <= j < i ==> !((#[trigger] chars@[j]) == '.' && j + 1 < chars@.len() && chars@[j
                    + 1] == '.'),
        decreases n - i,
    {
        if chars[i] == '.' && chars[i + 1] == '.' {
            return i;
        }
        i = i + 1;
    }
    n
}

/// How a revision expression resolves over a well-formed history: a single
/// identifier yields that one commit; `from..to` yields the commits of the
/// range, newest first; an identifier that no commit carries yields nothing.
pub open spec fn spec_resolve(r: Seq<Commit>, expr: Seq<char>) -> Option<Seq<CommitRecord>> {
    let d = dotdot_at(expr) as int;
    if d == expr.len() {
        match spec_find(r, expr) {
            Some(i) => Some(seq![record_of(r[i])]),
            None => None,
        }
    } else {
        match (spec_find(r, expr.take(d)), spec_find(r, expr.skip(d + 2))) {
            (Some(f), Some(t)) => Some(range_records(r, f, t, 0)),
            _ => None,
        }
    }
}

/// The repository model: a history of commits, oldest first, each naming its
/// parents by index.
#[derive(Debug)]
pub struct Repository {
    commits: Vec<Commit>,
}

impl View for Repository {
    type V = Seq<Commit>;

    closed spec fn view(&self) -> Seq<Commit> {
        self.commits@
    }
}

impl Repository {
    /// An empty history.
    pub fn new() -> (r: Repository)
        ensures
            r@ == Seq::<Commit>::empty(),
            wf_seq(r@),
    {
        let r = Repository { commits: Vec::new() };
        proof {
            assert(r@ =~= Seq::<Commit>::empty());
        }
        r
    }

    /// Append a commit, newest so far. It is taken exactly when every named
    /// parent already exists and no commit carries the identifier yet; the
    /// history is unchanged otherwise.
    pub fn add_commit(&mut self, id: String, message: String, parents: Vec<usize>) -> (added: bool)
        requires
            wf_seq(old(self)@),
        ensures
            wf_seq(final(self)@),
            added == ((forall|pi: int|
                0 <= pi < parents@.len() ==> (#[trigger] parents@[pi]) < old(self)@.len()) && (
            forall|i: int| 0 <= i < old(self)@.len() ==> (#[trigger] old(self)@[i].id@) != id@)),
            added ==> final(self)@ == old(self)@.push(Commit { id, message, parents }),
            !added ==> final(self)@ == old(self)@,
    {
        let n = self.commits.len();
        let mut pi: usize = 0;
        while pi < parents.len()
            invariant
                pi <= parents.len(),
                self@ == old(self)@,
                wf_seq(self@),
                n == self.commits.len(),
                forall|q: int| 0 <= q < pi ==> (#[trigger] parents@[q]) < n,
            decreases parents.len() - pi,
        {
            if parents[pi] >= n {
                return false;
            }
            pi = pi + 1;
        }
        match find_index(&self.commits, &id) {
            Some(_) => {
                proof {
                    let i = choose|i: int|
                        0 <= i < self@.len() && (#[trigger] self@[i].id@) == id@;
                    assert(self@[i].id@ == id@);
                }
                false
            },
            None => {
                let ghost old_seq = self@;
                self.commits.push(Commit { id, message, parents });
                proof {
                    assert forall|i: int| 0 <= i < self@.len() implies wf_at(self@, i) by {
                        if i < old_seq.len() {
                            assert(wf_at(old_seq, i));
                            assert(self@[i] == old_seq[i]);
                        }
                    }
                }
                true
            },
        }
    }

    /// Resolve a revision expression against this history: one identifier
    /// yields that one commit, `from..to` yields every commit reachable from
    /// `to` but not from `from`, newest first. An identifier that no commit
    /// carries fails, and reports the expression.
    pub fn resolve(&self, expr: &str) -> (r: Result<Vec<CommitRecord>, RunError>)
        requires
            wf_seq(self@),
        ensures
            r is Ok <==> spec_resolve(self@, expr@) is Some,
            r matches Ok(v) ==> spec_resolve(self@, expr@) matches Some(s) && v@ == s,
            r matches Err(e) ==> e matches RunError::Revision { expression } && expression@
                == expr@,
    {
        let chars = chars_of(expr);
        let n = chars.len();
        let d = find_dotdot(&chars);
        proof {
            lemma_dotdot_at_is(expr@, d as int);
        }
        if d == n {
            let id = string_from_chars(&chars);
            match find_index(&self.commits, &id) {
                Some(i) => {
                    proof {
                        let si = choose|si: int|
                            0 <= si < self@.len() && (#[trigger] self@[si].id@) == expr@;
                        assert(self@[si].id@ == self@[i as int].id@);
                        assert(si == i as int);
                    }
                    let rec = CommitRecord {
                        id: self.commits[i].id.clone(),
                        message: self.commits[i].message.clone(),
                    };
                    let mut v: Vec<CommitRecord> = Vec::new();
                    v.push(rec);
                    proof {
                        assert(v@ =~= seq![record_of(self@[i as int])]);
                    }
                    Ok(v)
                },
                None => Err(RunError::Revision { expression: expr.to_owned() }),
            }
        } else {
            let from_id = string_from_chars(&copy_range(&chars, 0, d));
            let to_id = string_from_chars(&copy_range(&chars, d + 2, n));
            proof {
                assert(expr@.take(d as int) =~= chars@.subrange(0, d as int));
                assert(expr@.skip(d + 2) =~= chars@.subrange(d + 2, n as int));
            }
            let fo = find_index(&self.commits, &from_id);
            let to = find_index(&self.commits, &to_id);
            match (fo, to) {
                (Some(f), Some(t)) => {
                    proof {
                        let sf = choose|si: int|
                            0 <= si < self@.len() && (#[trigger] self@[si].id@) == expr@.take(
                                d as int,
                            );
                        assert(self@[sf].id@ == self@[f as int].id@);
                        assert(sf == f as int);
                        let st = choose|si: int|
                            0 <= si < self@.len() && (#[trigger] self@[si].id@) == expr@.skip(
                                d + 2,
                            );
                        assert(self@[st].id@ == self@[t as int].id@);
                        assert(st == t as int);
                    }
                    let marks_to = mark_reachable(&self.commits, t);
                    let marks_from = mark_reachable(&self.commits, f);
                    let mut out: Vec<CommitRecord> = Vec::new();
                    let mut idx = self.commits.len();
                    proof {
                        assert(out@ =~= range_records(self@, f as int, t as int, idx as int));
                    }
                    while idx > 0
                        invariant
                            idx <= self.commits.len(),
                            wf_seq(self@),
                            f < self.commits.len(),
                            t < self.commits.len(),
                            marks_to.len() == self.commits.len(),
                            marks_from.len() == self.commits.len(),
                            forall|j: int|
                                0 <= j < self@.len() ==> ((#[trigger] marks_to@[j]) <==> reachable(
                                    self@,
                                    t as int,
                                    j,
                                )),
                            forall|j: int|
                                0 <= j < self@.len() ==> ((#[trigger] marks_from@[j])
                                    <==> reachable(self@, f as int, j)),
                            out@ == range_records(self@, f as int, t as int, idx as int),
                        decreases idx,
                    {
                        idx = idx - 1;
                        if marks_to[idx] && !marks_from[idx] {
                            out.push(
                                CommitRecord {
                                    id: self.commits[idx].id.clone(),
                                    message: self.commits[idx].message.clone(),
                                },
                            );
                        }
                        proof {
                            assert(out@ =~= range_records(self@, f as int, t as int, idx as int));
                        }
                    }
                    Ok(out)
                },
                _ => Err(RunError::Revision { expression: expr.to_owned() }),
            }
        }
    }
}

} // verus!
