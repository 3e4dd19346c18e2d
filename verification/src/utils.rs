//! Named stopwatches. The registry holds no clock of its own: the caller
//! hands in the instant of each event, in milliseconds.

use vstd::prelude::*;

verus! {

/// The stopwatches that were started and not yet stopped, each with its label
/// and the instant at which it started. No label occurs twice.
pub struct Timers {
    running: Vec<(String, u64)>,
}

impl Timers {
    /// The running stopwatches, in the order in which they were started.
    pub closed spec fn entries(&self) -> Seq<(Seq<char>, u64)> {
        Seq::new(self.running.len() as nat, |i: int| (self.running[i].0@, self.running[i].1))
    }

    #[verifier::type_invariant]
    closed spec fn inv(&self) -> bool {
        forall|i: int, j: int|
            0 <= i < j < self.running.len() ==> self.running[i].0@ != self.running[j].0@
    }

    /// Whether a stopwatch with this label is running.
    pub open spec fn running(&self, label: Seq<char>) -> bool {
        exists|i: int| 0 <= i < self.entries().len() && (#[trigger] self.entries()[i]).0 == label
    }

    /// Where in `entries` the stopwatch with this label stands.
    pub open spec fn position(&self, label: Seq<char>) -> int {
        choose|i: int| 0 <= i < self.entries().len() && (#[trigger] self.entries()[i]).0 == label
    }

    /// A registry in which nothing runs.
    pub fn new() -> (r: Timers)
        ensures
            r.entries() == Seq::<(Seq<char>, u64)>::empty(),
    {
        let r = Timers { running: Vec::new() };
        assert(r.entries() =~= Seq::<(Seq<char>, u64)>::empty());
        r
    }

    /// The place of the stopwatch with this label, if one is running.
    fn find(&self, label: &str) -> (r: Option<usize>)
        ensures
            r is Some <==> self.running(label@),
            r is Some ==> r->Some_0 == self.position(label@) && r->Some_0 < self.entries().len(),
    {
        proof {
            use_type_invariant(self);
        }
        let probe = label.to_owned();
        let mut i: usize = 0;
        while i < self.running.len()
            invariant
                i <= self.running.len(),
                probe@ == label@,
                forall|a: int, b: int|
                    0 <= a < b < self.running.len() ==> self.running[a].0@ != self.running[b].0@,
                forall|k: int| 0 <= k < i ==> self.running[k].0@ != label@,
            decreases self.running.len() - i,
        {
            if self.running[i].0 == probe {
                proof {
                    assert(self.entries()[i as int].0 == label@);
                    let p = self.position(label@);
                    assert(self.entries()[p].0 == label@);
                    assert(p == i);
                }
                return Some(i);
            }
            i += 1;
        }
        proof {
            assert forall|k: int| 0 <= k < self.entries().len() implies (
            #[trigger] self.entries()[k]).0 != label@ by {}
        }
        None
    }

    /// Whether a stopwatch with this label is running.
    pub fn is_running(&self, label: &str) -> (r: bool)
        ensures
            r == self.running(label@),
    {
        self.find(label).is_some()
    }
}

/// Starts the stopwatch `label` at the instant `now`. Starting a label that
/// is running is an error of the caller.
pub fn time_begin(timers: &mut Timers, label: &str, now: u64)
    requires
        !old(timers).running(label@),
    ensures
        final(timers).entries() == old(timers).entries().push((label@, now)),
{
    proof {
        use_type_invariant(&*timers);
        assert forall|k: int| 0 <= k < timers.running.len() implies timers.running[k].0@
            != label@ by {
            assert(timers.entries()[k].0 == timers.running[k].0@);
        }
    }
    let mut running: Vec<(String, u64)> = Vec::new();
    core::mem::swap(&mut timers.running, &mut running);
    running.push((label.to_owned(), now));
    core::mem::swap(&mut timers.running, &mut running);
    assert(timers.entries() =~= old(timers).entries().push((label@, now)));
}

/// Stops the stopwatch `label` at the instant `now` and returns the
/// milliseconds it ran: `now` less its start, or zero where `now` lies before
/// the start. Stopping a label that is not running is an error of the caller.
pub fn time_end(timers: &mut Timers, label: &str, now: u64) -> (elapsed: u64)
    requires
        old(timers).running(label@),
    ensures
        final(timers).entries() == old(timers).entries().remove(old(timers).position(label@)),
        elapsed == if now >= old(timers).entries()[old(timers).position(label@)].1 {
            now - old(timers).entries()[old(timers).position(label@)].1
        } else {
            0
        },
{
    proof {
        use_type_invariant(&*timers);
    }
    let at = timers.find(label).unwrap();
    let start = timers.running[at].1;
    let mut running: Vec<(String, u64)> = Vec::new();
    core::mem::swap(&mut timers.running, &mut running);
    running.remove(at);
    core::mem::swap(&mut timers.running, &mut running);
    assert(timers.entries() =~= old(timers).entries().remove(at as int));
    if now >= start {
        now - start
    } else {
        0
    }
}

} // verus!
