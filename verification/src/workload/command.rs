//! The command line of the workloads.
use vstd::prelude::*;
use vstd::string::*;

use crate::error::{invalid, Error};
use crate::text::{number_reason, parse_unsigned, str_eq};
#[allow(unused_imports)]
use crate::error::Fault;

verus! {

/// The workloads.
#[derive(Clone, Copy, Debug, PartialEq, Eq, Structural)]
pub enum Kind {
    Stay,
    StayHa,
    Move,
    MoveHold,
    Hold,
    DisasterSource,
    DisasterSourceHold,
    DisasterSourceHa,
    MoveLoss,
    MoveLossHold,
    Grade,
}

/// The workload that a word names.
pub open spec fn kind_named(word: Seq<char>) -> Option<Kind> {
    if word == "stay"@ {
        Some(Kind::Stay)
    } else if word == "stay-ha"@ {
        Some(Kind::StayHa)
    } else if word == "move"@ {
        Some(Kind::Move)
    } else if word == "move-hold"@ {
        Some(Kind::MoveHold)
    } else if word == "hold"@ {
        Some(Kind::Hold)
    } else if word == "disaster-source"@ {
        Some(Kind::DisasterSource)
    } else if word == "disaster-source-hold"@ {
        Some(Kind::DisasterSourceHold)
    } else if word == "disaster-source-ha"@ {
        Some(Kind::DisasterSourceHa)
    } else if word == "move-loss"@ {
        Some(Kind::MoveLoss)
    } else if word == "move-loss-hold"@ {
        Some(Kind::MoveLossHold)
    } else if word == "grade"@ {
        Some(Kind::Grade)
    } else {
        None
    }
}

fn kind_of(word: &str) -> (k: Option<Kind>)
    ensures
        k == kind_named(word@),
{
    if str_eq(word, "stay") {
        Some(Kind::Stay)
    } else if str_eq(word, "stay-ha") {
        Some(Kind::StayHa)
    } else if str_eq(word, "move") {
        Some(Kind::Move)
    } else if str_eq(word, "move-hold") {
        Some(Kind::MoveHold)
    } else if str_eq(word, "hold") {
        Some(Kind::Hold)
    } else if str_eq(word, "disaster-source") {
        Some(Kind::DisasterSource)
    } else if str_eq(word, "disaster-source-hold") {
        Some(Kind::DisasterSourceHold)
    } else if str_eq(word, "disaster-source-ha") {
        Some(Kind::DisasterSourceHa)
    } else if str_eq(word, "move-loss") {
        Some(Kind::MoveLoss)
    } else if str_eq(word, "move-loss-hold") {
        Some(Kind::MoveLossHold)
    } else if str_eq(word, "grade") {
        Some(Kind::Grade)
    } else {
        None
    }
}

/// What the arguments of a workload are in turn: `true` for a number, `false` for a text. `count` is
/// how many were given, of which the last two of a grade can be left out.
pub open spec fn shape_of(kind: Kind, count: nat) -> Seq<bool> {
    match kind {
        Kind::Stay => seq![false, false, true],
        Kind::StayHa => seq![false, false, true, false, false],
        Kind::Move => seq![false, true, true],
        Kind::MoveHold => seq![false, true, true, true],
        Kind::Hold => seq![false, true, true],
        Kind::DisasterSource => seq![false, false, true, true],
        Kind::DisasterSourceHold => seq![false, false, true, true, true],
        Kind::DisasterSourceHa => seq![false, false, true, true, false, false],
        Kind::MoveLoss => seq![false, true, true, true],
        Kind::MoveLossHold => seq![false, true, true, true, true],
        Kind::Grade => if count <= 2 {
            seq![false, true]
        } else if count == 3 {
            seq![false, true, true]
        } else {
            seq![false, true, true, true]
        },
    }
}

fn shape(kind: Kind, count: usize) -> (v: Vec<bool>)
    ensures
        v@ == shape_of(kind, count as nat),
{
    let v: Vec<bool> = match kind {
        Kind::Stay => vec![false, false, true],
        Kind::StayHa => vec![false, false, true, false, false],
        Kind::Move => vec![false, true, true],
        Kind::MoveHold => vec![false, true, true, true],
        Kind::Hold => vec![false, true, true],
        Kind::DisasterSource => vec![false, false, true, true],
        Kind::DisasterSourceHold => vec![false, false, true, true, true],
        Kind::DisasterSourceHa => vec![false, false, true, true, false, false],
        Kind::MoveLoss => vec![false, true, true, true],
        Kind::MoveLossHold => vec![false, true, true, true, true],
        Kind::Grade => if count <= 2 {
            vec![false, true]
        } else if count == 3 {
            vec![false, true, true]
        } else {
            vec![false, true, true, true]
        },
    };
    proof {
        assert(v@ =~= shape_of(kind, count as nat));
    }
    v
}

/// A workload with its texts (the target first, then where the controller and the failing leaves are)
/// and its numbers, each in turn.
#[derive(Debug)]
pub struct Workload {
    pub kind: Kind,
    pub texts: Vec<String>,
    pub numbers: Vec<u64>,
}

/// What is meant by [`Workload`].
pub struct WorkloadView {
    pub kind: Kind,
    pub texts: Seq<Seq<char>>,
    pub numbers: Seq<u64>,
}

impl View for Workload {
    type V = WorkloadView;

    open spec fn view(&self) -> WorkloadView {
        WorkloadView {
            kind: self.kind,
            texts: crate::text::texts(self.texts@),
            numbers: self.numbers@,
        }
    }
}

/// `w` with the arguments that follow in `rest`.
pub open spec fn filled(w: WorkloadView, shape: Seq<bool>, rest: Seq<Seq<char>>) -> Result<
    WorkloadView,
    Fault,
>
    decreases shape.len(),
{
    if shape.len() == 0 {
        if rest.len() > 0 {
            Err(usage_fault())
        } else {
            Ok(w)
        }
    } else if rest.len() == 0 {
        Err(usage_fault())
    } else if shape[0] {
        match crate::text::unsigned_value(rest[0], u64::MAX as nat) {
            Some(n) => filled(
                WorkloadView { numbers: w.numbers.push(n as u64), ..w },
                shape.skip(1),
                rest.skip(1),
            ),
            None => Err(
                crate::error::bad_input(crate::text::number_fault(rest[0], u64::MAX as nat)),
            ),
        }
    } else {
        filled(
            WorkloadView { texts: w.texts.push(rest[0]), ..w },
            shape.skip(1),
            rest.skip(1),
        )
    }
}

/// What a command line asks for. A grade has both or none of its last two numbers.
pub open spec fn workload_due(args: Seq<Seq<char>>) -> Result<WorkloadView, Fault> {
    if args.len() == 0 {
        Err(usage_fault())
    } else {
        match kind_named(args[0]) {
            None => Err(usage_fault()),
            Some(kind) => {
                let rest = args.skip(1);
                let shape = shape_of(kind, rest.len());
                match filled(
                    WorkloadView { kind, texts: Seq::empty(), numbers: Seq::empty() },
                    shape,
                    rest,
                ) {
                    Err(e) => Err(e),
                    Ok(w) => if kind == Kind::Grade && rest.len() == 3 {
                        Err(usage_fault())
                    } else {
                        Ok(w)
                    },
                }
            },
        }
    }
}

/// What a command line asks for.
pub fn parse_workload(args: &Vec<String>) -> (r: Result<Workload, Error>)
    ensures
        match r {
            Ok(w) => workload_due(crate::text::texts(args@)) == Ok::<WorkloadView, Fault>(w@),
            Err(e) => workload_due(crate::text::texts(args@)) == Err::<WorkloadView, Fault>(e@),
        },
{
    let count: usize = args.len();
    if count == 0 {
        return Err(usage());
    }
    let ghost views = crate::text::texts(args@);
    let word: &str = args[0].as_str();
    proof {
        assert(views[0] == word@);
    }
    let kind: Kind = match kind_of(word) {
        Some(kind) => kind,
        None => {
            return Err(usage());
        },
    };
    let shape: Vec<bool> = self::shape(kind, count - 1);
    let wanted: usize = shape.len();
    let mut w: Workload = Workload { kind, texts: Vec::new(), numbers: Vec::new() };
    let ghost start = WorkloadView { kind, texts: Seq::empty(), numbers: Seq::empty() };
    let ghost goal = filled(start, shape@, views.skip(1));
    proof {
        assert(w@.texts =~= Seq::<Seq<char>>::empty());
        assert(shape@.skip(0) =~= shape@);
    }
    let mut i: usize = 0;
    while i < wanted
        invariant
            i <= wanted,
            wanted == shape@.len(),
            i < count,
            count == args@.len(),
            views == crate::text::texts(args@),
            views.len() > 0,
            kind_named(views[0]) == Some(kind),
            shape@ == shape_of(kind, views.skip(1).len()),
            start == (WorkloadView { kind, texts: Seq::empty(), numbers: Seq::empty() }),
            goal == filled(start, shape@, views.skip(1)),
            w.kind == kind,
            goal == filled(w@, shape@.skip(i as int), views.skip(i + 1)),
        decreases wanted - i,
    {
        let ghost rest = views.skip(i + 1);
        let ghost left = shape@.skip(i as int);
        if i + 1 >= count {
            proof {
                assert(rest.len() == 0);
            }
            return Err(usage());
        }
        proof {
            assert(rest[0] == args@[i + 1]@);
            assert(left[0] == shape@[i as int]);
            assert(left.skip(1) =~= shape@.skip(i + 1));
            assert(rest.skip(1) =~= views.skip(i + 2));
        }
        let item: &str = args[i + 1].as_str();
        let ghost before = w@;
        if shape[i] {
            match parse_unsigned(item, u64::MAX) {
                Some(n) => {
                    w.numbers.push(n);
                },
                None => {
                    return Err(invalid(number_reason(item, u64::MAX)));
                },
            }
        } else {
            let ghost held = w.texts@;
            w.texts.push(args[i + 1].clone());
            proof {
                assert(crate::text::texts(w.texts@) =~= crate::text::texts(held).push(item@));
            }
        }
        i = i + 1;
    }
    proof {
        assert(shape@.skip(i as int).len() == 0);
        assert(views.skip(i + 1).len() == count - i - 1);
    }
    if wanted + 1 < count {
        return Err(usage());
    }
    match kind {
        Kind::Grade => if count == 4 {
            Err(usage())
        } else {
            Ok(w)
        },
        _ => Ok(w),
    }
}

/// How the workloads are called.
pub open spec fn usage_fault() -> Fault {
    crate::error::bad_input(
        "usage:\n  zcglobal-volume-workload stay TARGET CONTROL_ADDR OPERATIONS\n  zcglobal-volume-workload stay-ha TARGET CONTROL_ADDR OPERATIONS SOURCE_LEAF_FAILURE_ADDR TARGET_LEAF_FAILURE_ADDR\n  zcglobal-volume-workload disaster-source TARGET CONTROL_ADDR CHECKPOINT ACKNOWLEDGED_THROUGH\n  zcglobal-volume-workload disaster-source-ha TARGET CONTROL_ADDR CHECKPOINT ACKNOWLEDGED_THROUGH SOURCE_LEAF_FAILURE_ADDR TARGET_LEAF_FAILURE_ADDR\n  zcglobal-volume-workload disaster-source-hold TARGET CONTROL_ADDR CHECKPOINT ACKNOWLEDGED_THROUGH SECONDS\n  zcglobal-volume-workload hold TARGET VERIFY_THROUGH SECONDS\n  zcglobal-volume-workload move TARGET VERIFY_THROUGH END\n  zcglobal-volume-workload move-hold TARGET VERIFY_THROUGH END SECONDS\n  zcglobal-volume-workload move-loss TARGET CHECKPOINT LOST_THROUGH END\n  zcglobal-volume-workload move-loss-hold TARGET CHECKPOINT LOST_THROUGH END SECONDS\n  zcglobal-volume-workload grade TARGET THROUGH [ZERO_FROM ZERO_THROUGH]"@,
    )
}

/// The complaint that shows how the workloads are called.
pub fn usage() -> (e: Error)
    ensures
        e@ == usage_fault(),
{
    invalid(
        "usage:\n  zcglobal-volume-workload stay TARGET CONTROL_ADDR OPERATIONS\n  zcglobal-volume-workload stay-ha TARGET CONTROL_ADDR OPERATIONS SOURCE_LEAF_FAILURE_ADDR TARGET_LEAF_FAILURE_ADDR\n  zcglobal-volume-workload disaster-source TARGET CONTROL_ADDR CHECKPOINT ACKNOWLEDGED_THROUGH\n  zcglobal-volume-workload disaster-source-ha TARGET CONTROL_ADDR CHECKPOINT ACKNOWLEDGED_THROUGH SOURCE_LEAF_FAILURE_ADDR TARGET_LEAF_FAILURE_ADDR\n  zcglobal-volume-workload disaster-source-hold TARGET CONTROL_ADDR CHECKPOINT ACKNOWLEDGED_THROUGH SECONDS\n  zcglobal-volume-workload hold TARGET VERIFY_THROUGH SECONDS\n  zcglobal-volume-workload move TARGET VERIFY_THROUGH END\n  zcglobal-volume-workload move-hold TARGET VERIFY_THROUGH END SECONDS\n  zcglobal-volume-workload move-loss TARGET CHECKPOINT LOST_THROUGH END\n  zcglobal-volume-workload move-loss-hold TARGET CHECKPOINT LOST_THROUGH END SECONDS\n  zcglobal-volume-workload grade TARGET THROUGH [ZERO_FROM ZERO_THROUGH]",
    )
}

proof fn lemma_filled_takes_all(w: WorkloadView, shape: Seq<bool>, rest: Seq<Seq<char>>)
    requires
        filled(w, shape, rest) is Ok,
    ensures
        ({
            let f = filled(w, shape, rest)->Ok_0;
            &&& f.kind == w.kind
            &&& shape.len() == rest.len()
            &&& f.texts.len() + f.numbers.len() == w.texts.len() + w.numbers.len() + rest.len()
            &&& w.texts.len() <= f.texts.len()
            &&& w.numbers.len() <= f.numbers.len()
            &&& w.texts == f.texts.subrange(0, w.texts.len() as int)
            &&& w.numbers == f.numbers.subrange(0, w.numbers.len() as int)
            &&& rest.len() > 0 && !shape[0] ==> f.texts.len() > w.texts.len()
                && f.texts[w.texts.len() as int] == rest[0]
            &&& rest.len() > 0 && shape[0] ==> f.numbers.len() > w.numbers.len()
                && crate::text::unsigned_value(rest[0], u64::MAX as nat) == Some(
                f.numbers[w.numbers.len() as int] as nat,
            )
        }),
    decreases shape.len(),
{
    if shape.len() > 0 {
        if shape[0] {
            let n = crate::text::unsigned_value(rest[0], u64::MAX as nat)->0;
            let next = WorkloadView { numbers: w.numbers.push(n as u64), ..w };
            lemma_filled_takes_all(next, shape.skip(1), rest.skip(1));
            let f = filled(w, shape, rest)->Ok_0;
            assert(next.numbers[w.numbers.len() as int] == n);
            assert(f.numbers.subrange(0, next.numbers.len() as int)[w.numbers.len() as int]
                == f.numbers[w.numbers.len() as int]);
            assert(w.numbers =~= f.numbers.subrange(0, w.numbers.len() as int)) by {
                assert forall|i: int| 0 <= i < w.numbers.len() implies w.numbers[i]
                    == f.numbers[i] by {
                    assert(next.numbers[i] == w.numbers[i]);
                    assert(f.numbers.subrange(0, next.numbers.len() as int)[i] == f.numbers[i]);
                }
            }
        } else {
            let next = WorkloadView { texts: w.texts.push(rest[0]), ..w };
            lemma_filled_takes_all(next, shape.skip(1), rest.skip(1));
            let f = filled(w, shape, rest)->Ok_0;
            assert(next.texts[w.texts.len() as int] == rest[0]);
            assert(f.texts.subrange(0, next.texts.len() as int)[w.texts.len() as int]
                == f.texts[w.texts.len() as int]);
            assert(w.texts =~= f.texts.subrange(0, w.texts.len() as int)) by {
                assert forall|i: int| 0 <= i < w.texts.len() implies w.texts[i] == f.texts[i] by {
                    assert(next.texts[i] == w.texts[i]);
                    assert(f.texts.subrange(0, next.texts.len() as int)[i] == f.texts[i]);
                }
            }
        }
    } else {
        assert(w.texts =~= w.texts.subrange(0, w.texts.len() as int));
        assert(w.numbers =~= w.numbers.subrange(0, w.numbers.len() as int));
    }
}

/// A workload is of the kind that its first argument names and takes every other argument, each once, as a
/// text or as a number; the target comes first.
pub proof fn law_every_argument_is_taken(args: Seq<Seq<char>>)
    requires
        workload_due(args) is Ok,
    ensures
        ({
            let w = workload_due(args)->Ok_0;
            &&& args.len() >= 2
            &&& kind_named(args[0]) == Some(w.kind)
            &&& w.texts.len() + w.numbers.len() == args.len() - 1
            &&& w.texts.len() > 0 && w.texts[0] == args[1]
        }),
{
    let kind = kind_named(args[0])->0;
    let rest = args.skip(1);
    lemma_filled_takes_all(
        WorkloadView { kind, texts: Seq::empty(), numbers: Seq::empty() },
        shape_of(kind, rest.len()),
        rest,
    );
}

} // verus!
