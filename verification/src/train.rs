//! When training reports progress and when it stops.

use vstd::prelude::*;
use vstd::arithmetic::div_mod::lemma_mod_mod;

verus! {

/// What to report at the end of an epoch of fixed-length training.
#[derive(Clone, Copy, Debug, PartialEq, Eq, Structural)]
pub enum Report {
    /// Record the average loss and report it with the elapsed time.
    Loss,
    /// Report the epoch number only.
    Epoch,
    /// Report nothing.
    Quiet,
}

/// Epochs between two progress reports when training for `epochs` epochs:
/// a hundredth of them, and at least one.
pub open spec fn report_interval(epochs: nat) -> nat {
    if epochs / 100 >= 1 {
        epochs / 100
    } else {
        1
    }
}

/// The report due at the end of epoch `epoch` of `epochs`: the loss every
/// ten intervals, else the epoch number every interval, else nothing.
pub open spec fn report_due(epoch: nat, epochs: nat) -> Report {
    let t = report_interval(epochs);
    if epoch % (t * 10) == 0 {
        Report::Loss
    } else if epoch % t == 0 {
        Report::Epoch
    } else {
        Report::Quiet
    }
}

/// Epochs between two progress reports when training for `epochs` epochs.
pub fn report_threshold(epochs: usize) -> (t: usize)
    ensures
        t == report_interval(epochs as nat),
        1 <= t,
        t * 10 <= usize::MAX,
{
    let t = epochs / 100;
    if t >= 1 {
        t
    } else {
        1
    }
}

/// The report due at the end of epoch `epoch` of `epochs`: the loss every
/// ten intervals, else the epoch number every interval, else nothing.
pub fn train_report(epoch: usize, epochs: usize) -> (r: Report)
    ensures
        r == report_due(epoch as nat, epochs as nat),
{
    let thresh = report_threshold(epochs);
    if epoch % (thresh * 10) == 0 {
        Report::Loss
    } else if epoch % thresh == 0 {
        Report::Epoch
    } else {
        Report::Quiet
    }
}

/// Number of progress checks without improvement after which training
/// towards a target loss gives up.
pub const STALL_LIMIT: usize = 10;

/// Epochs between two progress checks when training towards a target loss.
pub const CHECK_INTERVAL: usize = 100;

/// What training towards a target loss does at the end of an epoch.
#[derive(Clone, Copy, Debug, PartialEq, Eq, Structural)]
pub struct UntilDecision {
    /// Training ends now; the loss of this epoch is not recorded.
    pub stop: bool,
    /// This epoch is a progress check: report the loss and elapsed time.
    pub report: bool,
    /// The check found no improvement: report that too.
    pub stalled: bool,
}

/// The state of training towards a target loss: how many progress checks
/// found no improvement so far.
pub struct TrainUntil {
    force_break: usize,
}

impl TrainUntil {
    /// Checks without improvement so far.
    pub closed spec fn stalls(&self) -> nat {
        self.force_break as nat
    }

    /// No check has been made yet.
    pub fn new() -> (t: Self)
        ensures
            t.stalls() == 0,
    {
        TrainUntil { force_break: 0 }
    }

    /// Checks without improvement so far.
    pub fn force_break(&self) -> (n: usize)
        ensures
            n == self.stalls(),
    {
        self.force_break
    }

    /// The decision at the end of epoch `epoch`, given whether the average
    /// loss reached the target (`reached`) and whether it went down by no
    /// more than the tolerance since the last recorded loss (`no_progress`).
    /// Reaching the target stops at once. Otherwise every hundredth epoch is
    /// a progress check, which counts a stall when there was no progress,
    /// and stops once ten stalls are counted.
    pub fn step(&mut self, epoch: usize, reached: bool, no_progress: bool) -> (d: UntilDecision)
        requires
            old(self).stalls() < STALL_LIMIT,
        ensures
            d.report == (!reached && epoch % CHECK_INTERVAL == 0),
            d.stalled == (d.report && no_progress),
            final(self).stalls() == old(self).stalls() + (if d.stalled {
                1nat
            } else {
                0nat
            }),
            d.stop == (reached || final(self).stalls() == STALL_LIMIT),
            !d.stop ==> final(self).stalls() < STALL_LIMIT,
    {
        if reached {
            return UntilDecision { stop: true, report: false, stalled: false };
        }
        let report = epoch % CHECK_INTERVAL == 0;
        let stalled = report && no_progress;
        if stalled {
            self.force_break = self.force_break + 1;
        }
        UntilDecision { stop: self.force_break == STALL_LIMIT, report, stalled }
    }
}

/// The schedule of fixed-length training over `epochs` epochs, with the
/// report interval `t = max(1, epochs / 100)`: the average loss is recorded
/// and reported exactly at the epochs that are multiples of `10 * t`; the
/// epoch number alone exactly at the other multiples of `t`; nothing at the
/// rest.
pub proof fn lemma_report_schedule(epoch: nat, epochs: nat)
    ensures
        ({
            let t: nat = if epochs >= 100 {
                epochs / 100
            } else {
                1
            };
            &&& (report_due(epoch, epochs) == Report::Loss) == (epoch % (10 * t) == 0)
            &&& (report_due(epoch, epochs) == Report::Epoch) == (epoch % t == 0 && epoch % (10 * t) != 0)
            &&& (report_due(epoch, epochs) == Report::Quiet) == (epoch % t != 0)
        }),
{
    let t: nat = if epochs >= 100 {
        epochs / 100
    } else {
        1
    };
    assert(report_interval(epochs) == t);
    assert(t * 10 == 10 * t);
    lemma_mod_mod(epoch as int, t as int, 10);
    if epoch % (10 * t) == 0 {
        assert((epoch % (t * 10)) % t == 0nat % t);
    }
}

} // verus!
