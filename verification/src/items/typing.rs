use crate::items::expression::{
    applied, decoded, evaluated, outcome_of, settled, ExpressionType, UNKNOWN,
};
use crate::items::variable::{combined, Computed, Operator, Value};
use crate::scope::{lookup, Frame};
use crate::utils::{count_of, lemma_sorted_entries_lie_deeper, Error, Folder};
use vstd::prelude::*;

verus! {

/// Two values are alike when they are of one type and are both set or both
/// unset.
pub open spec fn alike(one: Value, other: Value) -> bool {
    one.kind() == other.kind() && one.is_null() == other.is_null()
}

/// Two chains of frames are alike when they hold the same slots, frame by
/// frame, with values that are alike.
pub open spec fn frames_alike(one: Seq<Frame>, other: Seq<Frame>) -> bool {
    &&& one.len() == other.len()
    &&& forall|i: int, slot: usize|
        0 <= i < one.len() ==> (#[trigger] one[i].contains_key(slot) <==> other[i].contains_key(slot))
    &&& forall|i: int, slot: usize|
        0 <= i < one.len() && one[i].contains_key(slot) ==> alike(
            #[trigger] one[i][slot],
            other[i][slot],
        )
}

/// Two outcomes of one expression agree when they fail in the same way or
/// come to values that are alike, unless one of them is still waiting for
/// the result of some arithmetic.
pub open spec fn agree(
    one: Result<(Computed, nat), Error>,
    other: Result<(Computed, nat), Error>,
) -> bool {
    match (one, other) {
        (Ok((Computed::Float(_), _)), _) => true,
        (_, Ok((Computed::Float(_), _))) => true,
        (Err(e), Err(f)) => e == f,
        (Ok((Computed::Value(v), _)), Ok((Computed::Value(w), _))) => alike(v, w),
        _ => false,
    }
}

/// In frames that are alike a slot is found in both or in neither, with
/// values that are alike.
pub proof fn lemma_lookup_alike(one: Seq<Frame>, other: Seq<Frame>, slot: usize)
    requires
        frames_alike(one, other),
    ensures
        match (lookup(one, slot), lookup(other, slot)) {
            (None, None) => true,
            (Some(v), Some(w)) => alike(v, w),
            _ => false,
        },
    decreases one.len(),
{
    if one.len() > 0 {
        assert(one[0].contains_key(slot) <==> other[0].contains_key(slot));
        if !one[0].contains_key(slot) {
            let rest = one.drop_first();
            let other_rest = other.drop_first();
            assert forall|i: int, s: usize| 0 <= i < rest.len() implies (
            #[trigger] rest[i].contains_key(s) <==> other_rest[i].contains_key(s)) by {
                assert(one[i + 1].contains_key(s) <==> other[i + 1].contains_key(s));
            }
            assert forall|i: int, s: usize|
                0 <= i < rest.len() && rest[i].contains_key(s) implies alike(
                #[trigger] rest[i][s],
                other_rest[i][s],
            ) by {
                assert(one[i + 1].contains_key(s));
                assert(alike(one[i + 1][s], other[i + 1][s]));
            }
            lemma_lookup_alike(rest, other_rest, slot);
        }
    }
}

/// What an operator makes of two values depends on nothing but their
/// types and on whether they are set: whether it fails and how, whether it
/// is left to the caller, and of which type its result is.
pub proof fn lemma_operators_go_by_type(
    operator: Operator,
    left: Value,
    right: Value,
    other_left: Value,
    other_right: Value,
)
    requires
        alike(left, other_left),
        alike(right, other_right),
    ensures
        match (combined(operator, left, right), combined(operator, other_left, other_right)) {
            (Err(e), Err(f)) => e == f,
            (Ok(Computed::Value(v)), Ok(Computed::Value(w))) => alike(v, w),
            (Ok(Computed::Float(_)), Ok(Computed::Float(_))) => true,
            _ => false,
        },
{
}

proof fn lemma_applied_agrees(
    folder: Folder,
    kind: ExpressionType,
    left: Value,
    right: Value,
    answers: Seq<u32>,
    used: nat,
    assumed: Option<u32>,
    other_left: Value,
    other_right: Value,
    other_answers: Seq<u32>,
    other_used: nat,
    other_assumed: Option<u32>,
)
    requires
        alike(left, other_left),
        alike(right, other_right),
    ensures
        agree(
            applied(folder, kind, left, right, answers, used, assumed),
            applied(
                folder,
                kind,
                other_left,
                other_right,
                other_answers,
                other_used,
                other_assumed,
            ),
        ),
{
    if let Some(operator) = kind.operator() {
        lemma_operators_go_by_type(operator, left, right, other_left, other_right);
    }
}

/// Worked out in frames that are alike, an expression fails in the same
/// way or comes to values that are alike, whatever the results of the
/// arithmetic in it were.
pub proof fn lemma_evaluation_goes_by_type(
    folder: Folder,
    frames: Seq<Frame>,
    answers: Seq<u32>,
    used: nat,
    assumed: Option<u32>,
    other_frames: Seq<Frame>,
    other_answers: Seq<u32>,
    other_used: nat,
    other_assumed: Option<u32>,
)
    requires
        frames_alike(frames, other_frames),
    ensures
        agree(
            evaluated(folder, frames, answers, used, assumed),
            evaluated(folder, other_frames, other_answers, other_used, other_assumed),
        ),
    decreases folder,
{
    if let Ok((kind, parts)) = decoded(folder) {
        if kind == ExpressionType::Variable {
            if let Ok(slot) = count_of(parts[1]) {
                lemma_lookup_alike(frames, other_frames, slot);
            }
        } else if kind == ExpressionType::LiteralValue {
        } else if decoded(parts[1]) is Ok && decoded(parts[2]) is Ok {
            lemma_sorted_entries_lie_deeper(folder);
            lemma_evaluation_goes_by_type(
                parts[1],
                frames,
                answers,
                used,
                assumed,
                other_frames,
                other_answers,
                other_used,
                other_assumed,
            );
            let left = evaluated(parts[1], frames, answers, used, assumed);
            let other_left = evaluated(
                parts[1],
                other_frames,
                other_answers,
                other_used,
                other_assumed,
            );
            if let Ok((Computed::Value(a), next)) = left {
                if let Ok((Computed::Value(b), other_next)) = other_left {
                    lemma_evaluation_goes_by_type(
                        parts[2],
                        frames,
                        answers,
                        next,
                        assumed,
                        other_frames,
                        other_answers,
                        other_next,
                        other_assumed,
                    );
                    let right = evaluated(parts[2], frames, answers, next, assumed);
                    let other_right = evaluated(
                        parts[2],
                        other_frames,
                        other_answers,
                        other_next,
                        other_assumed,
                    );
                    if let Ok((Computed::Value(c), last)) = right {
                        if let Ok((Computed::Value(d), other_last)) = other_right {
                            lemma_applied_agrees(
                                folder,
                                kind,
                                a,
                                c,
                                answers,
                                last,
                                assumed,
                                b,
                                d,
                                other_answers,
                                other_last,
                                other_assumed,
                            );
                        }
                    }
                }
            }
        }
    }
}

/// Where a result is assumed for all arithmetic, none is asked for.
pub proof fn lemma_nothing_is_asked(
    folder: Folder,
    frames: Seq<Frame>,
    answers: Seq<u32>,
    used: nat,
    bits: u32,
)
    ensures
        !(evaluated(folder, frames, answers, used, Some(bits)) matches Ok((Computed::Float(_), _))),
    decreases folder,
{
    if let Ok((kind, parts)) = decoded(folder) {
        if !kind.is_leaf() && decoded(parts[1]) is Ok && decoded(parts[2]) is Ok {
            lemma_sorted_entries_lie_deeper(folder);
            lemma_nothing_is_asked(parts[1], frames, answers, used, bits);
            if let Ok((Computed::Value(_), next)) = evaluated(
                parts[1],
                frames,
                answers,
                used,
                Some(bits),
            ) {
                lemma_nothing_is_asked(parts[2], frames, answers, next, bits);
            }
        }
    }
}

/// The two ways of working an expression out agree: with nought in place
/// of the results of the arithmetic it fails as it does with the true
/// results, and comes to a value of the type that it has with them.
pub proof fn lemma_settling_goes_with_running(
    folder: Folder,
    frames: Seq<Frame>,
    other_frames: Seq<Frame>,
    answers: Seq<u32>,
)
    requires
        frames_alike(frames, other_frames),
    ensures
        match outcome_of(folder, frames, answers) {
            Err(e) => settled(folder, other_frames) == Err::<Value, Error>(e),
            Ok(Computed::Value(value)) => settled(folder, other_frames) matches Ok(other) && alike(
                value,
                other,
            ),
            Ok(Computed::Float(_)) => true,
        },
{
    lemma_evaluation_goes_by_type(
        folder,
        frames,
        answers,
        0,
        None,
        other_frames,
        Seq::empty(),
        0,
        Some(UNKNOWN),
    );
    lemma_nothing_is_asked(folder, other_frames, Seq::empty(), 0, UNKNOWN);
}

} // verus!
