//! The steps of each workload.
use vstd::prelude::*;
use vstd::string::*;

use crate::error::{invalid, Error, ErrorKind};
use crate::text::{contains_part, decimal, join2, join4, starts_with, trim};
#[allow(unused_imports)]
use crate::error::Fault;

verus! {

/// One step of a workload.
#[derive(Clone, Copy, Debug, PartialEq, Eq, Structural)]
pub enum Step {
    /// Write the page of a sequence number, make it durable and read it back.
    Write(u64),
    /// Look for the page of a sequence number.
    Verify(u64),
    /// Make sure that the page of a sequence number is not there.
    VerifyZero(u64),
    /// Let the other side take over.
    Switch,
    /// Destroy a leaf of the source region.
    FailSource,
    /// Destroy a leaf of the target region.
    FailTarget,
    /// Wait until the other side has every sequence number up to one.
    AwaitCheckpoint(u64),
    /// Keep the other side from getting more.
    PauseReplication,
    /// Do nothing for some seconds.
    Hold(u64),
}

/// The writes of the sequence numbers from one to another.
pub open spec fn writes(from: int, through: int) -> Seq<Step> {
    Seq::new(
        if through < from {
            0
        } else {
            (through - from + 1) as nat
        },
        |i: int| Step::Write((from + i) as u64),
    )
}

/// The checks of the sequence numbers from one to another.
pub open spec fn verifies(from: int, through: int) -> Seq<Step> {
    Seq::new(
        if through < from {
            0
        } else {
            (through - from + 1) as nat
        },
        |i: int| Step::Verify((from + i) as u64),
    )
}

/// The checks that the sequence numbers from one to another are not there.
pub open spec fn zeros(from: int, through: int) -> Seq<Step> {
    Seq::new(
        if through < from {
            0
        } else {
            (through - from + 1) as nat
        },
        |i: int| Step::VerifyZero((from + i) as u64),
    )
}

fn push_writes(steps: &mut Vec<Step>, from: u64, through: u64)
    requires
        through < u64::MAX,
    ensures
        final(steps)@ == old(steps)@ + writes(from as int, through as int),
{
    let ghost before = steps@;
    let mut next: u64 = from;
    proof {
        assert(steps@ =~= before + writes(from as int, from - 1));
    }
    while next <= through
        invariant
            through < u64::MAX,
            from <= next,
            next <= through + 1 || next == from,
            steps@ == before + writes(from as int, next - 1),
        decreases through + 1 - next,
    {
        steps.push(Step::Write(next));
        proof {
            assert(steps@ =~= before + writes(from as int, next as int));
        }
        next = next + 1;
    }
    proof {
        if next == from {
            assert(writes(from as int, through as int) =~= writes(from as int, next - 1));
        }
    }
}

fn push_verifies(steps: &mut Vec<Step>, from: u64, through: u64)
    requires
        through < u64::MAX,
    ensures
        final(steps)@ == old(steps)@ + verifies(from as int, through as int),
{
    let ghost before = steps@;
    let mut next: u64 = from;
    proof {
        assert(steps@ =~= before + verifies(from as int, from - 1));
    }
    while next <= through
        invariant
            through < u64::MAX,
            from <= next,
            next <= through + 1 || next == from,
            steps@ == before + verifies(from as int, next - 1),
        decreases through + 1 - next,
    {
        steps.push(Step::Verify(next));
        proof {
            assert(steps@ =~= before + verifies(from as int, next as int));
        }
        next = next + 1;
    }
    proof {
        if next == from {
            assert(verifies(from as int, through as int) =~= verifies(from as int, next - 1));
        }
    }
}

fn push_zeros(steps: &mut Vec<Step>, from: u64, through: u64)
    requires
        through < u64::MAX,
    ensures
        final(steps)@ == old(steps)@ + zeros(from as int, through as int),
{
    let ghost before = steps@;
    let mut next: u64 = from;
    proof {
        assert(steps@ =~= before + zeros(from as int, from - 1));
    }
    while next <= through
        invariant
            through < u64::MAX,
            from <= next,
            next <= through + 1 || next == from,
            steps@ == before + zeros(from as int, next - 1),
        decreases through + 1 - next,
    {
        steps.push(Step::VerifyZero(next));
        proof {
            assert(steps@ =~= before + zeros(from as int, next as int));
        }
        next = next + 1;
    }
    proof {
        if next == from {
            assert(zeros(from as int, through as int) =~= zeros(from as int, next - 1));
        }
    }
}

/// Whether a plan is what it should be.
pub open spec fn planned(r: Result<Vec<Step>, Error>, due: Result<Seq<Step>, Fault>) -> bool {
    match r {
        Ok(steps) => due == Ok::<Seq<Step>, Fault>(steps@),
        Err(e) => due == Err::<Seq<Step>, Fault>(e@),
    }
}

/// The check of every sequence number up to one.
pub open spec fn prefix_steps(through: u64) -> Result<Seq<Step>, Fault> {
    if through >= 4096 {
        Err(crate::error::bad_input("verification range must be less than 4096"@))
    } else {
        Ok(verifies(1, through as int))
    }
}

/// The check of every sequence number up to one.
pub fn verify_prefix(through: u64) -> (r: Result<Vec<Step>, Error>)
    ensures
        planned(r, prefix_steps(through)),
{
    if through >= 4096 {
        return Err(invalid("verification range must be less than 4096"));
    }
    let mut steps: Vec<Step> = Vec::new();
    push_verifies(&mut steps, 1, through);
    proof {
        assert(steps@ =~= verifies(1, through as int));
    }
    Ok(steps)
}

/// A workload that stays on its node while the other side takes over halfway.
pub open spec fn stay_steps(operations: u64) -> Result<Seq<Step>, Fault> {
    let half = (operations / 2) as int;
    if operations < 4 || operations >= 4096 {
        Err(crate::error::bad_input("operations must be in 4..4096"@))
    } else {
        Ok(writes(1, half) + seq![Step::Switch] + writes(half + 1, operations as int))
    }
}

/// A workload that stays on its node while the other side takes over halfway.
pub fn run_stay(operations: u64) -> (r: Result<Vec<Step>, Error>)
    ensures
        planned(r, stay_steps(operations)),
{
    if operations < 4 || operations >= 4096 {
        return Err(invalid("operations must be in 4..4096"));
    }
    let half: u64 = operations / 2;
    let mut steps: Vec<Step> = Vec::new();
    push_writes(&mut steps, 1, half);
    steps.push(Step::Switch);
    push_writes(&mut steps, half + 1, operations);
    proof {
        assert(steps@ =~= writes(1, half as int) + seq![Step::Switch] + writes(
            half + 1,
            operations as int,
        ));
    }
    Ok(steps)
}

/// A workload that stays while each region loses a leaf and the other side takes over in between.
pub open spec fn stay_ha_steps(operations: u64) -> Result<Seq<Step>, Fault> {
    let quarter = (operations / 4) as int;
    if operations < 8 || operations >= 4096 || operations % 4 != 0 {
        Err(crate::error::bad_input("HA operations must be a multiple of four in 8..4096"@))
    } else {
        Ok(
            writes(1, quarter) + seq![Step::FailSource] + writes(quarter + 1, 2 * quarter) + seq![
                Step::Switch,
            ] + writes(2 * quarter + 1, 3 * quarter) + seq![Step::FailTarget] + writes(
                3 * quarter + 1,
                operations as int,
            ),
        )
    }
}

/// A workload that stays while each region loses a leaf and the other side takes over in between.
pub fn run_stay_ha(operations: u64) -> (r: Result<Vec<Step>, Error>)
    ensures
        planned(r, stay_ha_steps(operations)),
{
    if operations < 8 || operations >= 4096 || operations % 4 != 0 {
        return Err(invalid("HA operations must be a multiple of four in 8..4096"));
    }
    let quarter: u64 = operations / 4;
    let mut steps: Vec<Step> = Vec::new();
    push_writes(&mut steps, 1, quarter);
    steps.push(Step::FailSource);
    push_writes(&mut steps, quarter + 1, operations / 2);
    steps.push(Step::Switch);
    push_writes(&mut steps, operations / 2 + 1, operations * 3 / 4);
    steps.push(Step::FailTarget);
    push_writes(&mut steps, operations * 3 / 4 + 1, operations);
    proof {
        assert(operations / 2 == 2 * quarter && operations * 3 / 4 == 3 * quarter);
        assert(steps@ =~= writes(1, quarter as int) + seq![Step::FailSource] + writes(
            quarter + 1,
            2 * quarter,
        ) + seq![Step::Switch] + writes(2 * quarter + 1, 3 * quarter) + seq![Step::FailTarget]
            + writes(3 * quarter + 1, operations as int));
    }
    Ok(steps)
}

/// A workload that goes on where another node has stopped.
pub open spec fn move_steps(verify_through: u64, end: u64) -> Result<Seq<Step>, Fault> {
    if verify_through == 0 || end <= verify_through || end >= 4096 {
        Err(crate::error::bad_input("require 0 < VERIFY_THROUGH < END < 4096"@))
    } else {
        Ok(
            verifies(1, verify_through as int) + writes(verify_through + 1, end as int) + verifies(
                1,
                end as int,
            ),
        )
    }
}

/// A workload that goes on where another node has stopped.
pub fn run_move(verify_through: u64, end: u64) -> (r: Result<Vec<Step>, Error>)
    ensures
        planned(r, move_steps(verify_through, end)),
{
    if verify_through == 0 || end <= verify_through || end >= 4096 {
        return Err(invalid("require 0 < VERIFY_THROUGH < END < 4096"));
    }
    let mut steps: Vec<Step> = Vec::new();
    push_verifies(&mut steps, 1, verify_through);
    push_writes(&mut steps, verify_through + 1, end);
    push_verifies(&mut steps, 1, end);
    proof {
        assert(steps@ =~= verifies(1, verify_through as int) + writes(
            verify_through + 1,
            end as int,
        ) + verifies(1, end as int));
    }
    Ok(steps)
}

/// Some steps and then a pause.
pub open spec fn held(steps: Result<Seq<Step>, Fault>, seconds: u64, none: Seq<char>) -> Result<
    Seq<Step>,
    Fault,
> {
    if seconds == 0 {
        Err(crate::error::bad_input(none))
    } else {
        match steps {
            Ok(steps) => Ok(steps + seq![Step::Hold(seconds)]),
            Err(e) => Err(e),
        }
    }
}

fn hold_after(steps: Result<Vec<Step>, Error>, seconds: u64) -> (r: Result<Vec<Step>, Error>)
    requires
        seconds > 0,
    ensures
        match (steps, r) {
            (Ok(before), Ok(after)) => after@ == before@ + seq![Step::Hold(seconds)],
            (Err(e), Err(f)) => e@ == f@,
            _ => false,
        },
{
    match steps {
        Ok(v) => {
            let mut after: Vec<Step> = v;
            after.push(Step::Hold(seconds));
            proof {
                assert(after@ =~= v@ + seq![Step::Hold(seconds)]);
            }
            Ok(after)
        },
        Err(e) => Err(e),
    }
}

/// A workload that goes on where another node has stopped, and then stays open.
pub fn run_move_hold(verify_through: u64, end: u64, seconds: u64) -> (r: Result<Vec<Step>, Error>)
    ensures
        planned(
            r,
            held(move_steps(verify_through, end), seconds, "move-hold requires SECONDS > 0"@),
        ),
{
    if seconds == 0 {
        return Err(invalid("move-hold requires SECONDS > 0"));
    }
    hold_after(run_move(verify_through, end), seconds)
}

/// A workload that goes on at a checkpoint, after what came later was lost.
pub open spec fn move_loss_steps(checkpoint: u64, lost_through: u64, end: u64) -> Result<
    Seq<Step>,
    Fault,
> {
    if checkpoint == 0 || lost_through <= checkpoint || end <= lost_through || end >= 4096 {
        Err(crate::error::bad_input("require 0 < CHECKPOINT < LOST_THROUGH < END < 4096"@))
    } else {
        Ok(
            verifies(1, checkpoint as int) + zeros(checkpoint + 1, lost_through as int) + writes(
                checkpoint + 1,
                end as int,
            ) + verifies(1, end as int),
        )
    }
}

/// A workload that goes on at a checkpoint, after what came later was lost.
pub fn run_move_loss(checkpoint: u64, lost_through: u64, end: u64) -> (r: Result<Vec<Step>, Error>)
    ensures
        planned(r, move_loss_steps(checkpoint, lost_through, end)),
{
    if checkpoint == 0 || lost_through <= checkpoint || end <= lost_through || end >= 4096 {
        return Err(invalid("require 0 < CHECKPOINT < LOST_THROUGH < END < 4096"));
    }
    let mut steps: Vec<Step> = Vec::new();
    push_verifies(&mut steps, 1, checkpoint);
    push_zeros(&mut steps, checkpoint + 1, lost_through);
    push_writes(&mut steps, checkpoint + 1, end);
    push_verifies(&mut steps, 1, end);
    proof {
        assert(steps@ =~= verifies(1, checkpoint as int) + zeros(
            checkpoint + 1,
            lost_through as int,
        ) + writes(checkpoint + 1, end as int) + verifies(1, end as int));
    }
    Ok(steps)
}

/// A workload that goes on at a checkpoint, and then stays open.
pub fn run_move_loss_hold(checkpoint: u64, lost_through: u64, end: u64, seconds: u64) -> (r: Result<
    Vec<Step>,
    Error,
>)
    ensures
        planned(
            r,
            held(
                move_loss_steps(checkpoint, lost_through, end),
                seconds,
                "move-loss-hold requires SECONDS > 0"@,
            ),
        ),
{
    if seconds == 0 {
        return Err(invalid("move-loss-hold requires SECONDS > 0"));
    }
    hold_after(run_move_loss(checkpoint, lost_through, end), seconds)
}

/// A workload that looks for what another has written, and then stays open.
pub open spec fn hold_steps(verify_through: u64, seconds: u64) -> Result<Seq<Step>, Fault> {
    if verify_through == 0 || verify_through >= 4096 || seconds == 0 {
        Err(crate::error::bad_input("require 0 < VERIFY_THROUGH < 4096 and SECONDS > 0"@))
    } else {
        Ok(verifies(1, verify_through as int) + seq![Step::Hold(seconds)])
    }
}

/// A workload that looks for what another has written, and then stays open.
pub fn run_hold(verify_through: u64, seconds: u64) -> (r: Result<Vec<Step>, Error>)
    ensures
        planned(r, hold_steps(verify_through, seconds)),
{
    if verify_through == 0 || verify_through >= 4096 || seconds == 0 {
        return Err(invalid("require 0 < VERIFY_THROUGH < 4096 and SECONDS > 0"));
    }
    let mut steps: Vec<Step> = Vec::new();
    push_verifies(&mut steps, 1, verify_through);
    steps.push(Step::Hold(seconds));
    proof {
        assert(steps@ =~= verifies(1, verify_through as int) + seq![Step::Hold(seconds)]);
    }
    Ok(steps)
}

/// The writes up to a checkpoint; a quarter in, the source may lose a leaf, and three quarters in, the
/// target may.
pub open spec fn checkpoint_steps(checkpoint: u64, failures: bool) -> Seq<Step> {
    let first = (checkpoint / 4) as int;
    let last = (checkpoint as int * 3) / 4;
    if failures {
        writes(1, first) + seq![Step::FailSource] + writes(first + 1, last) + seq![Step::FailTarget]
            + writes(last + 1, checkpoint as int)
    } else {
        writes(1, checkpoint as int)
    }
}

/// A workload whose node is lost after it has acknowledged more than the other side has.
pub open spec fn disaster_steps(checkpoint: u64, acknowledged_through: u64, failures: bool) -> Result<
    Seq<Step>,
    Fault,
> {
    if checkpoint == 0 || acknowledged_through <= checkpoint || acknowledged_through >= 4096 {
        Err(
            crate::error::bad_input("require 0 < CHECKPOINT < ACKNOWLEDGED_THROUGH < 4096"@),
        )
    } else {
        Ok(
            checkpoint_steps(checkpoint, failures) + seq![
                Step::AwaitCheckpoint(checkpoint),
                Step::PauseReplication,
            ] + writes(checkpoint + 1, acknowledged_through as int),
        )
    }
}

/// A workload whose node is lost; its regions may lose leaves before.
pub fn run_disaster_source_with_failures(
    checkpoint: u64,
    acknowledged_through: u64,
    failures: bool,
) -> (r: Result<Vec<Step>, Error>)
    ensures
        planned(r, disaster_steps(checkpoint, acknowledged_through, failures)),
{
    if checkpoint == 0 || acknowledged_through <= checkpoint || acknowledged_through >= 4096 {
        return Err(invalid("require 0 < CHECKPOINT < ACKNOWLEDGED_THROUGH < 4096"));
    }
    let mut steps: Vec<Step> = Vec::new();
    if failures {
        push_writes(&mut steps, 1, checkpoint / 4);
        steps.push(Step::FailSource);
        push_writes(&mut steps, checkpoint / 4 + 1, checkpoint * 3 / 4);
        steps.push(Step::FailTarget);
        push_writes(&mut steps, checkpoint * 3 / 4 + 1, checkpoint);
    } else {
        push_writes(&mut steps, 1, checkpoint);
    }
    proof {
        assert(steps@ =~= checkpoint_steps(checkpoint, failures));
    }
    steps.push(Step::AwaitCheckpoint(checkpoint));
    steps.push(Step::PauseReplication);
    push_writes(&mut steps, checkpoint + 1, acknowledged_through);
    proof {
        assert(steps@ =~= checkpoint_steps(checkpoint, failures) + seq![
            Step::AwaitCheckpoint(checkpoint),
            Step::PauseReplication,
        ] + writes(checkpoint + 1, acknowledged_through as int));
    }
    Ok(steps)
}

/// A workload whose node is lost.
pub fn run_disaster_source(checkpoint: u64, acknowledged_through: u64) -> (r: Result<
    Vec<Step>,
    Error,
>)
    ensures
        planned(r, disaster_steps(checkpoint, acknowledged_through, false)),
{
    run_disaster_source_with_failures(checkpoint, acknowledged_through, false)
}

/// A workload whose node is lost after each region has lost a leaf.
pub open spec fn disaster_ha_steps(checkpoint: u64, acknowledged_through: u64) -> Result<
    Seq<Step>,
    Fault,
> {
    if checkpoint < 8 || checkpoint % 4 != 0 {
        Err(
            crate::error::bad_input(
                "disaster-source-ha checkpoint must be a multiple of four and at least eight"@,
            ),
        )
    } else {
        disaster_steps(checkpoint, acknowledged_through, true)
    }
}

/// A workload whose node is lost after each region has lost a leaf.
pub fn run_disaster_source_ha(checkpoint: u64, acknowledged_through: u64) -> (r: Result<
    Vec<Step>,
    Error,
>)
    ensures
        planned(r, disaster_ha_steps(checkpoint, acknowledged_through)),
{
    if checkpoint < 8 || checkpoint % 4 != 0 {
        return Err(
            invalid("disaster-source-ha checkpoint must be a multiple of four and at least eight"),
        );
    }
    run_disaster_source_with_failures(checkpoint, acknowledged_through, true)
}

/// A workload whose node is to be lost, and that stays open until then.
pub fn run_disaster_source_hold(checkpoint: u64, acknowledged_through: u64, seconds: u64) -> (r:
    Result<Vec<Step>, Error>)
    ensures
        planned(
            r,
            held(
                disaster_steps(checkpoint, acknowledged_through, false),
                seconds,
                "disaster-source-hold requires SECONDS > 0"@,
            ),
        ),
{
    if seconds == 0 {
        return Err(invalid("disaster-source-hold requires SECONDS > 0"));
    }
    hold_after(run_disaster_source(checkpoint, acknowledged_through), seconds)
}

/// The check that a node that was left out has got none of some sequence numbers.
pub open spec fn absent_steps(from: u64, end: u64) -> Result<Seq<Step>, Fault> {
    if from == 0 || from > end || end >= 4096 {
        Err(crate::error::bad_input("require 0 < ZERO_FROM <= ZERO_THROUGH < 4096"@))
    } else {
        Ok(zeros(from as int, end as int))
    }
}

/// How a volume is graded: first what it has to hold is verified, then what it must not hold, where
/// that was asked for soundly.
#[derive(Debug)]
pub struct Grade {
    pub prefix: Vec<Step>,
    pub absent: Result<Vec<Step>, Error>,
}

/// What is checked after the prefix: nothing where no range was given.
pub open spec fn grade_absent(zero: Option<(u64, u64)>) -> Result<Seq<Step>, Fault> {
    match zero {
        Some((from, end)) => absent_steps(from, end),
        None => Ok(Seq::empty()),
    }
}

/// The check of every sequence number up to one and then, where a range is given, that a node that was
/// left out has got none of its numbers. A range that is not sound is refused only after the prefix.
pub fn run_grade(through: u64, zero: Option<(u64, u64)>) -> (r: Result<Grade, Error>)
    ensures
        match r {
            Ok(grade) => prefix_steps(through) == Ok::<Seq<Step>, Fault>(grade.prefix@) && planned(
                grade.absent,
                grade_absent(zero),
            ),
            Err(e) => prefix_steps(through) == Err::<Seq<Step>, Fault>(e@),
        },
{
    let prefix: Vec<Step> = match verify_prefix(through) {
        Ok(prefix) => prefix,
        Err(e) => {
            return Err(e);
        },
    };
    let mut steps: Vec<Step> = Vec::new();
    proof {
        assert(steps@ =~= Seq::<Step>::empty());
    }
    let absent: Result<Vec<Step>, Error> = match zero {
        Some((from, end)) => if from == 0 || from > end || end >= 4096 {
            Err(invalid("require 0 < ZERO_FROM <= ZERO_THROUGH < 4096"))
        } else {
            push_zeros(&mut steps, from, end);
            proof {
                assert(steps@ =~= zeros(from as int, end as int));
            }
            Ok(steps)
        },
        None => Ok(steps),
    };
    Ok(Grade { prefix, absent })
}

/// Checks what was answered when the other side was asked to take over; the answer has no white space
/// at its ends.
pub fn switch(response: &str) -> (r: Result<String, Error>)
    ensures
        match r {
            Ok(s) => crate::text::begins_with(
                crate::text::trim_text(response@),
                "OK active=secondary"@,
            ) && s@ == crate::text::trim_text(response@),
            Err(e) => !crate::text::begins_with(
                crate::text::trim_text(response@),
                "OK active=secondary"@,
            ) && e@ == (
                ErrorKind::Other,
                "custody transfer failed: "@ + crate::text::trim_text(response@),
            ),
        },
{
    let answer: String = trim(response);
    if starts_with(answer.as_str(), "OK active=secondary") {
        Ok(answer)
    } else {
        Err(
            Error::new(ErrorKind::Other, join2("custody transfer failed: ", answer.as_str())),
        )
    }
}

/// Whether the other side has reached a checkpoint, as its status says.
pub open spec fn at_checkpoint(status: Seq<char>, checkpoint: u64) -> bool {
    crate::text::has_part(
        status,
        "secondary_synced_generation="@ + crate::text::decimal_text(checkpoint as nat),
    )
}

/// Whether the other side has reached a checkpoint; a failure where it has not and the time is up.
pub fn await_checkpoint(status: &str, checkpoint: u64, late: bool) -> (r: Result<bool, Error>)
    ensures
        match r {
            Ok(reached) => reached == at_checkpoint(status@, checkpoint) && (reached || !late),
            Err(e) => !at_checkpoint(status@, checkpoint) && late && e@ == (
                ErrorKind::TimedOut,
                "remote replica did not reach checkpoint "@ + crate::text::decimal_text(
                    checkpoint as nat,
                ) + ": "@ + status@,
            ),
        },
{
    let digits: String = decimal(checkpoint);
    let wanted: String = join2("secondary_synced_generation=", digits.as_str());
    if contains_part(status, wanted.as_str()) {
        return Ok(true);
    }
    if late {
        return Err(
            Error::new(
                ErrorKind::TimedOut,
                join4(
                    "remote replica did not reach checkpoint ",
                    digits.as_str(),
                    ": ",
                    status,
                ),
            ),
        );
    }
    Ok(false)
}

/// Checks what was answered when the other side was to get no more.
pub fn check_paused(answer: &str) -> (r: Result<(), Error>)
    ensures
        match r {
            Ok(_) => crate::text::begins_with(answer@, "OK "@) && crate::text::has_part(
                answer@,
                "replication_paused=true"@,
            ),
            Err(e) => !(crate::text::begins_with(answer@, "OK "@) && crate::text::has_part(
                answer@,
                "replication_paused=true"@,
            )) && e@ == (ErrorKind::Other, "could not pause asynchronous replay: "@ + answer@),
        },
{
    if starts_with(answer, "OK ") && contains_part(answer, "replication_paused=true") {
        Ok(())
    } else {
        Err(Error::new(ErrorKind::Other, join2("could not pause asynchronous replay: ", answer)))
    }
}

/// The sequence numbers that some steps write, in their order.
pub open spec fn written(steps: Seq<Step>) -> Seq<u64>
    decreases steps.len(),
{
    if steps.len() == 0 {
        Seq::empty()
    } else {
        match steps.last() {
            Step::Write(n) => written(steps.drop_last()).push(n),
            _ => written(steps.drop_last()),
        }
    }
}

/// The numbers from one to another.
pub open spec fn numbers(from: int, through: int) -> Seq<u64> {
    Seq::new(
        if through < from {
            0
        } else {
            (through - from + 1) as nat
        },
        |i: int| (from + i) as u64,
    )
}

proof fn lemma_written_joined(a: Seq<Step>, b: Seq<Step>)
    ensures
        written(a + b) == written(a) + written(b),
    decreases b.len(),
{
    if b.len() == 0 {
        assert(a + b =~= a);
        assert(written(a) + written(b) =~= written(a));
    } else {
        lemma_written_joined(a, b.drop_last());
        assert((a + b).drop_last() =~= a + b.drop_last());
        assert((a + b).last() == b.last());
        assert(written(a + b) =~= written(a) + written(b));
    }
}

proof fn lemma_written_writes(from: int, through: int)
    requires
        0 <= from,
        through <= u64::MAX,
    ensures
        written(writes(from, through)) == numbers(from, through),
    decreases through - from + 1,
{
    let steps = writes(from, through);
    if through < from {
        assert(written(steps) =~= numbers(from, through));
    } else {
        lemma_written_writes(from, through - 1);
        assert(steps.drop_last() =~= writes(from, through - 1));
        assert(steps.last() == Step::Write(through as u64));
        assert(written(steps) =~= numbers(from, through));
    }
}

proof fn lemma_written_none(steps: Seq<Step>)
    requires
        forall|i: int| 0 <= i < steps.len() ==> !((#[trigger] steps[i]) is Write),
    ensures
        written(steps) == Seq::<u64>::empty(),
    decreases steps.len(),
{
    if steps.len() > 0 {
        assert(steps[steps.len() - 1] == steps.last());
        assert forall|i: int| 0 <= i < steps.drop_last().len() implies !(#[trigger] steps.drop_last()[i] is Write) by {
            assert(steps.drop_last()[i] == steps[i]);
        }
        lemma_written_none(steps.drop_last());
    }
}

proof fn lemma_numbers_joined(a: int, b: int, c: int)
    requires
        a <= b + 1,
        b <= c,
    ensures
        numbers(a, b) + numbers(b + 1, c) == numbers(a, c),
{
    assert(numbers(a, b) + numbers(b + 1, c) =~= numbers(a, c));
}

/// A workload that stays writes every sequence number once and in turn, whoever takes over.
pub proof fn law_stay_writes_every_sequence(operations: u64)
    requires
        stay_steps(operations) is Ok,
    ensures
        written(stay_steps(operations)->Ok_0) == numbers(1, operations as int),
{
    let half = (operations / 2) as int;
    let s = seq![Step::Switch];
    lemma_written_none(s);
    lemma_written_writes(1, half);
    lemma_written_writes(half + 1, operations as int);
    lemma_written_joined(writes(1, half), s);
    lemma_written_joined(writes(1, half) + s, writes(half + 1, operations as int));
    lemma_numbers_joined(1, half, operations as int);
    assert(numbers(1, half) + Seq::<u64>::empty() =~= numbers(1, half));
}

/// The same holds where each region loses a leaf.
pub proof fn law_stay_ha_writes_every_sequence(operations: u64)
    requires
        stay_ha_steps(operations) is Ok,
    ensures
        written(stay_ha_steps(operations)->Ok_0) == numbers(1, operations as int),
{
    let q = (operations / 4) as int;
    let n = operations as int;
    let f = seq![Step::FailSource];
    let s = seq![Step::Switch];
    let t = seq![Step::FailTarget];
    lemma_written_none(f);
    lemma_written_none(s);
    lemma_written_none(t);
    lemma_written_writes(1, q);
    lemma_written_writes(q + 1, 2 * q);
    lemma_written_writes(2 * q + 1, 3 * q);
    lemma_written_writes(3 * q + 1, n);
    let a = writes(1, q) + f;
    let b = a + writes(q + 1, 2 * q);
    let c = b + s;
    let d = c + writes(2 * q + 1, 3 * q);
    let e = d + t;
    lemma_written_joined(writes(1, q), f);
    lemma_written_joined(a, writes(q + 1, 2 * q));
    lemma_written_joined(b, s);
    lemma_written_joined(c, writes(2 * q + 1, 3 * q));
    lemma_written_joined(d, t);
    lemma_written_joined(e, writes(3 * q + 1, n));
    assert(written(a) =~= numbers(1, q));
    lemma_numbers_joined(1, q, 2 * q);
    assert(written(c) =~= numbers(1, 2 * q));
    lemma_numbers_joined(1, 2 * q, 3 * q);
    assert(written(e) =~= numbers(1, 3 * q));
    lemma_numbers_joined(1, 3 * q, n);
}

/// A workload whose node is lost has written every sequence number that it has acknowledged, once and
/// in turn, whether or not its regions have lost leaves.
pub proof fn law_disaster_writes_every_sequence(
    checkpoint: u64,
    acknowledged_through: u64,
    failures: bool,
)
    requires
        disaster_steps(checkpoint, acknowledged_through, failures) is Ok,
    ensures
        written(disaster_steps(checkpoint, acknowledged_through, failures)->Ok_0) == numbers(
            1,
            acknowledged_through as int,
        ),
{
    let c = checkpoint as int;
    let n = acknowledged_through as int;
    let x = (checkpoint / 4) as int;
    let y = (c * 3) / 4;
    let head = checkpoint_steps(checkpoint, failures);
    if failures {
        let f = seq![Step::FailSource];
        let t = seq![Step::FailTarget];
        lemma_written_none(f);
        lemma_written_none(t);
        lemma_written_writes(1, x);
        lemma_written_writes(x + 1, y);
        lemma_written_writes(y + 1, c);
        let p = writes(1, x) + f;
        let q = p + writes(x + 1, y);
        let r = q + t;
        lemma_written_joined(writes(1, x), f);
        lemma_written_joined(p, writes(x + 1, y));
        lemma_written_joined(q, t);
        lemma_written_joined(r, writes(y + 1, c));
        assert(written(p) =~= numbers(1, x));
        lemma_numbers_joined(1, x, y);
        assert(written(r) =~= numbers(1, y));
        lemma_numbers_joined(1, y, c);
    } else {
        lemma_written_writes(1, c);
    }
    assert(written(head) == numbers(1, c));
    let m = seq![Step::AwaitCheckpoint(checkpoint), Step::PauseReplication];
    lemma_written_none(m);
    lemma_written_writes(c + 1, n);
    lemma_written_joined(head, m);
    lemma_written_joined(head + m, writes(c + 1, n));
    assert(written(head + m) =~= numbers(1, c));
    lemma_numbers_joined(1, c, n);
}

/// A workload that goes on after a loss leaves no sequence number out: it writes every one that
/// follows the checkpoint, those that were lost among them.
pub proof fn law_move_loss_writes_what_was_lost(checkpoint: u64, lost_through: u64, end: u64)
    requires
        move_loss_steps(checkpoint, lost_through, end) is Ok,
    ensures
        written(move_loss_steps(checkpoint, lost_through, end)->Ok_0) == numbers(
            checkpoint + 1,
            end as int,
        ),
{
    let c = checkpoint as int;
    let n = end as int;
    lemma_written_none(verifies(1, c));
    lemma_written_none(zeros(c + 1, lost_through as int));
    lemma_written_writes(c + 1, n);
    lemma_written_none(verifies(1, n));
    let a = verifies(1, c) + zeros(c + 1, lost_through as int);
    let b = a + writes(c + 1, n);
    lemma_written_joined(verifies(1, c), zeros(c + 1, lost_through as int));
    lemma_written_joined(a, writes(c + 1, n));
    lemma_written_joined(b, verifies(1, n));
    assert(written(b) =~= numbers(c + 1, n));
    assert(written(b) + Seq::<u64>::empty() =~= written(b));
}

/// A workload that stays switches once, after the first half of its writes.
pub proof fn law_stay_switches_halfway(operations: u64, i: int)
    requires
        stay_steps(operations) is Ok,
        0 <= i < stay_steps(operations)->Ok_0.len(),
    ensures
        ({
            let steps = stay_steps(operations)->Ok_0;
            let half = (operations / 2) as int;
            &&& steps.len() == operations + 1
            &&& steps[i] == if i < half {
                Step::Write((i + 1) as u64)
            } else if i == half {
                Step::Switch
            } else {
                Step::Write(i as u64)
            }
        }),
{
}

/// A workload with failures loses its source after a quarter of its writes, switches after half of them
/// and loses its target after three quarters.
pub proof fn law_stay_ha_fails_between_the_quarters(operations: u64, i: int)
    requires
        stay_ha_steps(operations) is Ok,
        0 <= i < stay_ha_steps(operations)->Ok_0.len(),
    ensures
        ({
            let steps = stay_ha_steps(operations)->Ok_0;
            let q = (operations / 4) as int;
            &&& steps.len() == operations + 3
            &&& steps[i] == if i < q {
                Step::Write((i + 1) as u64)
            } else if i == q {
                Step::FailSource
            } else if i <= 2 * q {
                Step::Write(i as u64)
            } else if i == 2 * q + 1 {
                Step::Switch
            } else if i <= 3 * q + 1 {
                Step::Write((i - 1) as u64)
            } else if i == 3 * q + 2 {
                Step::FailTarget
            } else {
                Step::Write((i - 2) as u64)
            }
        }),
{
}

/// A move first looks for everything that was written before it, then writes on from there, and in the end
/// looks for all of it.
pub proof fn law_a_move_looks_for_everything(verify_through: u64, end: u64, i: int)
    requires
        move_steps(verify_through, end) is Ok,
        0 <= i < move_steps(verify_through, end)->Ok_0.len(),
    ensures
        ({
            let steps = move_steps(verify_through, end)->Ok_0;
            &&& steps.len() == 2 * end
            &&& steps[i] == if i < verify_through {
                Step::Verify((i + 1) as u64)
            } else if i < end {
                Step::Write((i + 1) as u64)
            } else {
                Step::Verify((i - end + 1) as u64)
            }
        }),
{
}

/// A move after a loss finds everything up to the checkpoint and nothing of what was lost behind it, writes
/// on from the checkpoint, and in the end looks for all of it.
pub proof fn law_a_move_after_a_loss_finds_the_checkpoint(
    checkpoint: u64,
    lost_through: u64,
    end: u64,
    i: int,
)
    requires
        move_loss_steps(checkpoint, lost_through, end) is Ok,
        0 <= i < move_loss_steps(checkpoint, lost_through, end)->Ok_0.len(),
    ensures
        ({
            let steps = move_loss_steps(checkpoint, lost_through, end)->Ok_0;
            let written = lost_through + (end - checkpoint);
            &&& steps.len() == written + end
            &&& steps[i] == if i < checkpoint {
                Step::Verify((i + 1) as u64)
            } else if i < lost_through {
                Step::VerifyZero((i + 1) as u64)
            } else if i < written {
                Step::Write((checkpoint + 1 + (i - lost_through)) as u64)
            } else {
                Step::Verify((i - written + 1) as u64)
            }
        }),
{
}

/// A disaster is staged in order: everything up to the checkpoint is written, the replica is awaited there,
/// replication is paused, and only then more is written.
pub proof fn law_a_disaster_comes_after_the_checkpoint(
    checkpoint: u64,
    acknowledged_through: u64,
    i: int,
)
    requires
        disaster_steps(checkpoint, acknowledged_through, false) is Ok,
        0 <= i < disaster_steps(checkpoint, acknowledged_through, false)->Ok_0.len(),
    ensures
        ({
            let steps = disaster_steps(checkpoint, acknowledged_through, false)->Ok_0;
            &&& steps.len() == acknowledged_through + 2
            &&& steps[i] == if i < checkpoint {
                Step::Write((i + 1) as u64)
            } else if i == checkpoint {
                Step::AwaitCheckpoint(checkpoint)
            } else if i == checkpoint + 1 {
                Step::PauseReplication
            } else {
                Step::Write((i - 1) as u64)
            }
        }),
{
}

/// A graded prefix looks for each sequence number from the first on, and what is absent is looked at from
/// its first to its last number.
pub proof fn law_grades_look_at_each_number(through: u64, from: u64, end: u64, i: int)
    ensures
        prefix_steps(through) matches Ok(steps) ==> steps.len() == through && (0 <= i < through
            ==> steps[i] == Step::Verify((i + 1) as u64)),
        absent_steps(from, end) matches Ok(steps) ==> steps.len() == end - from + 1 && (0 <= i < end
            - from + 1 ==> steps[i] == Step::VerifyZero((from + i) as u64)),
{
}

/// What is held is the whole plan, followed by one pause of the time that was asked for.
pub proof fn law_holding_comes_last(steps: Seq<Step>, seconds: u64, none: Seq<char>)
    requires
        seconds > 0,
    ensures
        held(Ok(steps), seconds, none) is Ok,
        held(Ok(steps), seconds, none)->Ok_0.drop_last() == steps,
        held(Ok(steps), seconds, none)->Ok_0.last() == Step::Hold(seconds),
        held(Ok(steps), 0, none) is Err,
{
    assert(held(Ok(steps), seconds, none)->Ok_0.drop_last() =~= steps);
}

/// With two copies the checkpoint is a multiple of four and at least eight.
pub proof fn law_a_disaster_with_copies_has_even_quarters(
    checkpoint: u64,
    acknowledged_through: u64,
    quarter: u64,
)
    ensures
        disaster_ha_steps(checkpoint, acknowledged_through) is Ok ==> checkpoint % 4 == 0
            && checkpoint >= 8,
        checkpoint == 4 * quarter && quarter >= 2 ==> disaster_ha_steps(
            checkpoint,
            acknowledged_through,
        ) == disaster_steps(checkpoint, acknowledged_through, true),
{
}

/// Who holds looks at every number that was written before, in order, and then waits.
pub proof fn law_a_hold_looks_at_each_number(verify_through: u64, seconds: u64, i: int)
    ensures
        hold_steps(verify_through, seconds) is Ok <==> 1 <= verify_through <= 4095 && seconds >= 1,
        hold_steps(verify_through, seconds) matches Ok(steps) ==> {
            &&& steps.len() == verify_through + 1
            &&& 0 <= i < verify_through ==> steps[i] == Step::Verify((i + 1) as u64)
            &&& steps.last() == Step::Hold(seconds)
        },
{
}

} // verus!
