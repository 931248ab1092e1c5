//! The orchestration of a run: the index page's status, the destination
//! names, the tasks to dispatch, and the fail-fast join of their results.

use vstd::prelude::*;
use crate::links::ResolveError;
use crate::pool::PoolError;
use crate::transfer::{Outcome, TransferError};

verus! {

/// Why a run failed.
#[derive(Debug)]
pub enum RunError {
    /// The pool size is zero.
    Config(PoolError),
    /// The index page answered with this non-success status.
    IndexStatus(u16),
    /// A request failed, or a subpage answered with a non-success status.
    Fetch(String),
    /// The markup lacked what was looked for.
    Resolve(ResolveError),
    Transfer(TransferError),
}

pub open spec fn is_success_status(status: u16) -> bool {
    200 <= status <= 299
}

/// A non-success status for the index page fails the whole run.
pub fn check_index_status(status: u16) -> (r: Result<(), RunError>)
    ensures
        is_success_status(status) <==> r is Ok,
        !is_success_status(status) ==> (r matches Err(RunError::IndexStatus(s)) && s == status),
{
    if 200 <= status && status <= 299 {
        Ok(())
    } else {
        Err(RunError::IndexStatus(status))
    }
}

/// What follows the last `/` of `s`, or all of `s` where it has none.
pub open spec fn last_segment(s: Seq<char>) -> Seq<char>
    decreases s.len(),
{
    if s.len() == 0 {
        s
    } else if s.last() == '/' {
        Seq::empty()
    } else {
        last_segment(s.drop_last()).push(s.last())
    }
}

/// The destination file name: the final path segment of the file's URL.
pub fn file_name_of(url: &str) -> (r: String)
    ensures
        r@ == last_segment(url@),
{
    let n = url.unicode_len();
    let mut i: usize = n;
    proof {
        assert(url@.subrange(0, n as int) =~= url@);
        assert(url@ + url@.subrange(n as int, n as int) =~= url@);
    }
    while i > 0 && url.get_char(i - 1) != '/'
        invariant
            n == url@.len(),
            i <= n,
            last_segment(url@) == last_segment(url@.subrange(0, i as int)) + url@.subrange(
                i as int,
                n as int,
            ),
        decreases i,
    {
        proof {
            let t = url@.subrange(0, i as int);
            assert(t.drop_last() =~= url@.subrange(0, i - 1));
            assert(url@.subrange(i - 1, n as int) =~= seq![t.last()] + url@.subrange(
                i as int,
                n as int,
            ));
            assert(last_segment(t) == last_segment(t.drop_last()).push(t.last()));
            assert(last_segment(t.drop_last()).push(t.last()) + url@.subrange(i as int, n as int)
                =~= last_segment(t.drop_last()) + url@.subrange(i - 1, n as int));
        }
        i = i - 1;
    }
    proof {
        if i == 0 {
            assert(url@.subrange(0, 0) =~= Seq::<char>::empty());
        } else {
            assert(url@.subrange(0, i as int).last() == '/');
        }
        assert(Seq::<char>::empty() + url@.subrange(i as int, n as int) =~= url@.subrange(
            i as int,
            n as int,
        ));
    }
    url.substring_char(i, n).to_owned()
}

/// The URL of an item's subpage: the site's URL, a `/`, the item's link.
pub fn subpage_url(base: &str, link: &str) -> (r: String)
    ensures
        r@ == base@ + seq!['/'] + link@,
{
    let mut r = base.to_owned();
    proof {
        reveal_strlit("/");
    }
    r.append("/");
    r.append(link);
    r
}

/// One download to dispatch.
#[derive(Debug)]
pub enum Task {
    /// The newest item, whose file URL the index page gives directly.
    Latest(String),
    /// An item known by the link to its subpage.
    Item(String),
}

pub open spec fn tasks_view(latest_only: bool, latest_url: String, links: Seq<String>) -> Seq<
    Task,
> {
    if latest_only {
        seq![Task::Latest(latest_url)]
    } else {
        seq![Task::Latest(latest_url)] + links.map_values(|l: String| Task::Item(l))
    }
}

/// The tasks of a run: the latest item first, then, unless only the latest
/// is wanted, one task per listed item in page order.
pub fn plan_tasks(latest_only: bool, latest_url: String, links: Vec<String>) -> (r: Vec<Task>)
    ensures
        r@ == tasks_view(latest_only, latest_url, links@),
        r@.len() == if latest_only {
            1
        } else {
            links@.len() + 1
        },
{
    let ghost lv = links@;
    let ghost lu = latest_url;
    let mut r: Vec<Task> = Vec::new();
    r.push(Task::Latest(latest_url));
    if latest_only {
        proof {
            assert(r@ =~= tasks_view(latest_only, lu, lv));
        }
        return r;
    }
    let mut rest = links;
    let mut k: usize = 0;
    let n = rest.len();
    while k < n
        invariant
            n == lv.len(),
            k <= n,
            rest@ == lv.subrange(k as int, n as int),
            r@ == seq![Task::Latest(lu)] + lv.subrange(0, k as int).map_values(
                |l: String| Task::Item(l),
            ),
        decreases n - k,
    {
        let ghost prev = r@;
        let l = rest.remove(0);
        r.push(Task::Item(l));
        proof {
            assert(l == lv[k as int]);
            assert(rest@ =~= lv.subrange(k + 1, n as int));
            assert(r@ =~= seq![Task::Latest(lu)] + lv.subrange(0, k + 1).map_values(
                |l: String| Task::Item(l),
            ));
        }
        k = k + 1;
    }
    proof {
        assert(lv.subrange(0, n as int) =~= lv);
        assert(r@ =~= tasks_view(latest_only, lu, lv));
    }
    r
}

/// A task's result is fatal to the run: an error before the transfer, or a
/// failed transfer.
pub open spec fn is_fatal(r: Result<Outcome, RunError>) -> bool {
    match r {
        Err(_) => true,
        Ok(Outcome::Failed(_)) => true,
        Ok(_) => false,
    }
}

/// The joint wait on the dispatched tasks: it counts the tasks that
/// completed or skipped, and stops at the first failure.
#[derive(Debug)]
pub struct Join {
    pub expected: usize,
    pub succeeded: usize,
    pub failure: Option<RunError>,
}

impl Join {
    pub open spec fn wf(&self) -> bool {
        self.succeeded <= self.expected
    }

    /// Every task succeeded, or one failed.
    pub open spec fn finished(&self) -> bool {
        self.failure is Some || self.succeeded == self.expected
    }

    pub open spec fn initial(expected: usize) -> Join {
        Join { expected, succeeded: 0, failure: None }
    }

    /// The join after one more task settled with `r`; results that come
    /// after the join has finished change nothing.
    pub open spec fn settled(self, r: Result<Outcome, RunError>) -> Join {
        if self.finished() {
            self
        } else {
            match r {
                Err(e) => Join { expected: self.expected, succeeded: self.succeeded, failure: Some(e) },
                Ok(Outcome::Failed(e)) => Join {
                    expected: self.expected,
                    succeeded: self.succeeded,
                    failure: Some(RunError::Transfer(e)),
                },
                Ok(_) => Join {
                    expected: self.expected,
                    succeeded: (self.succeeded + 1) as usize,
                    failure: None,
                },
            }
        }
    }

    /// The join after the results `rs` settled in turn.
    pub open spec fn settled_all(self, rs: Seq<Result<Outcome, RunError>>) -> Join
        decreases rs.len(),
    {
        if rs.len() == 0 {
            self
        } else {
            self.settled_all(rs.drop_last()).settled(rs.last())
        }
    }

    pub fn new(expected: usize) -> (r: Join)
        ensures
            r == Join::initial(expected),
            r.wf(),
    {
        Join { expected, succeeded: 0, failure: None }
    }

    pub fn settle(&mut self, r: Result<Outcome, RunError>)
        requires
            old(self).wf(),
        ensures
            *final(self) == old(self).settled(r),
            final(self).wf(),
    {
        if self.failure.is_some() || self.succeeded == self.expected {
            return;
        }
        match r {
            Err(e) => {
                self.failure = Some(e);
            },
            Ok(Outcome::Failed(e)) => {
                self.failure = Some(RunError::Transfer(e));
            },
            Ok(_) => {
                self.succeeded = self.succeeded + 1;
            },
        }
    }

    pub fn is_finished(&self) -> (r: bool)
        ensures
            r == self.finished(),
    {
        self.failure.is_some() || self.succeeded == self.expected
    }

    /// The run's result: its failure, if a task failed.
    pub fn into_result(self) -> (r: Result<(), RunError>)
        ensures
            match self.failure {
                Some(e) => r == Err::<(), RunError>(e),
                None => r == Ok::<(), RunError>(()),
            },
    {
        match self.failure {
            Some(e) => Err(e),
            None => Ok(()),
        }
    }
}

proof fn lemma_succeeded_bound(j: Join, rs: Seq<Result<Outcome, RunError>>)
    requires
        j.wf(),
    ensures
        j.settled_all(rs).wf(),
        j.settled_all(rs).expected == j.expected,
        j.settled_all(rs).succeeded <= j.succeeded + rs.len(),
        j.failure is Some ==> j.settled_all(rs) == j,
    decreases rs.len(),
{
    if rs.len() > 0 {
        lemma_succeeded_bound(j, rs.drop_last());
    }
}

/// Fail-fast: where one of the results awaited is fatal, the run fails,
/// however many of the others completed.
pub proof fn lemma_any_failure_fails_run(
    expected: usize,
    rs: Seq<Result<Outcome, RunError>>,
    i: int,
)
    requires
        rs.len() <= expected,
        0 <= i < rs.len(),
        is_fatal(rs[i]),
    ensures
        Join::initial(expected).settled_all(rs).failure is Some,
    decreases rs.len(),
{
    let j = Join::initial(expected);
    let front = rs.drop_last();
    let s = j.settled_all(front);
    lemma_succeeded_bound(j, front);
    if i < rs.len() - 1 {
        lemma_any_failure_fails_run(expected, front, i);
    } else {
        assert(rs.last() == rs[i]);
    }
}

/// The run succeeds where every awaited task completed or skipped.
pub proof fn lemma_all_succeed_run_succeeds(expected: usize, rs: Seq<Result<Outcome, RunError>>)
    requires
        rs.len() == expected,
        forall|k: int| 0 <= k < rs.len() ==> !is_fatal(#[trigger] rs[k]),
    ensures
        Join::initial(expected).settled_all(rs).failure is None,
        Join::initial(expected).settled_all(rs).finished(),
{
    lemma_all_succeed_counts(Join::initial(expected), rs);
}

proof fn lemma_all_succeed_counts(j: Join, rs: Seq<Result<Outcome, RunError>>)
    requires
        j.failure is None,
        j.succeeded + rs.len() <= j.expected,
        forall|k: int| 0 <= k < rs.len() ==> !is_fatal(#[trigger] rs[k]),
    ensures
        j.settled_all(rs).failure is None,
        j.settled_all(rs).succeeded == j.succeeded + rs.len(),
        j.settled_all(rs).expected == j.expected,
    decreases rs.len(),
{
    if rs.len() > 0 {
        let front = rs.drop_last();
        assert forall|k: int| 0 <= k < front.len() implies !is_fatal(#[trigger] front[k]) by {
            assert(front[k] == rs[k]);
        }
        lemma_all_succeed_counts(j, front);
        assert(!is_fatal(rs[rs.len() - 1]));
    }
}

/// Without the latest-only mode a run dispatches one task per listed item
/// and one for the latest item.
pub proof fn lemma_fan_out_count(latest_url: String, links: Seq<String>)
    ensures
        tasks_view(false, latest_url, links).len() == links.len() + 1,
        tasks_view(true, latest_url, links).len() == 1,
{
}

} // verus!
