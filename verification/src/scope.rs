use crate::items::variable::{Type, Value, Variable};
use crate::utils::{Error, ErrorKind};
use std::collections::HashMap;
use vstd::prelude::*;

verus! {

broadcast use vstd::std_specs::hash::group_hash_axioms;

/// The slots of one frame, each with its value.
pub type Frame = Map<usize, Value>;

/// A frame of variables and the frames around it.
///
/// A scope owns the scope that it was opened in. Its view is the chain of
/// frames from the innermost, which comes first, to the outermost.
pub struct Scope {
    variables: HashMap<usize, Variable>,
    parent: Option<Box<Scope>>,
}

/// The failure reported for a slot.
pub open spec fn slot_fault(kind: ErrorKind, slot: usize) -> Error {
    Error { kind, path: None, slot: Some(slot) }
}

/// The value of a slot: that of the innermost frame that holds the slot.
pub open spec fn lookup(frames: Seq<Frame>, slot: usize) -> Option<Value>
    decreases frames.len(),
{
    if frames.len() == 0 {
        None
    } else if frames[0].contains_key(slot) {
        Some(frames[0][slot])
    } else {
        lookup(frames.drop_first(), slot)
    }
}

/// The frames after a slot was declared in the innermost frame with the
/// given value. A slot can be declared once in a frame; that an outer
/// frame holds the slot too is no hindrance.
pub open spec fn declared(frames: Seq<Frame>, slot: usize, value: Value) -> Result<
    Seq<Frame>,
    Error,
> {
    if frames[0].contains_key(slot) {
        Err(slot_fault(ErrorKind::DuplicateDeclaration, slot))
    } else {
        Ok(frames.update(0, frames[0].insert(slot, value)))
    }
}

/// The frames after a declaration by the number that selects the type.
pub open spec fn declared_by_count(frames: Seq<Frame>, count: usize, slot: usize) -> Result<
    Seq<Frame>,
    Error,
> {
    if frames[0].contains_key(slot) {
        Err(slot_fault(ErrorKind::DuplicateDeclaration, slot))
    } else {
        match Type::of_count(count) {
            Some(kind) => Ok(frames.update(0, frames[0].insert(slot, Value::unset(kind)))),
            None => Err(Error { kind: ErrorKind::Decode, path: None, slot: None }),
        }
    }
}

/// The frames after a value was stored in the innermost frame that holds
/// the slot, or `None` if no frame holds it. The value must be of the type
/// that the slot has there.
pub open spec fn stored(frames: Seq<Frame>, slot: usize, value: Value) -> Result<
    Option<Seq<Frame>>,
    Error,
>
    decreases frames.len(),
{
    if frames.len() == 0 {
        Ok(None)
    } else if frames[0].contains_key(slot) {
        if frames[0][slot].kind() == value.kind() {
            Ok(Some(frames.update(0, frames[0].insert(slot, value))))
        } else {
            Err(slot_fault(ErrorKind::TypeMismatch, slot))
        }
    } else {
        match stored(frames.drop_first(), slot, value) {
            Ok(Some(outer)) => Ok(Some(seq![frames[0]] + outer)),
            Ok(None) => Ok(None),
            Err(e) => Err(e),
        }
    }
}

/// The frames after an assignment to a slot that must have been declared.
pub open spec fn assigned(frames: Seq<Frame>, slot: usize, value: Value) -> Result<
    Seq<Frame>,
    Error,
> {
    match stored(frames, slot, value) {
        Ok(Some(after)) => Ok(after),
        Ok(None) => Err(slot_fault(ErrorKind::UndeclaredVariable, slot)),
        Err(e) => Err(e),
    }
}

/// The frames after an assignment that declares the slot in the innermost
/// frame if no frame holds it.
pub open spec fn assigned_or_declared(frames: Seq<Frame>, slot: usize, value: Value) -> Result<
    Seq<Frame>,
    Error,
> {
    match stored(frames, slot, value) {
        Ok(Some(after)) => Ok(after),
        Ok(None) => Ok(frames.update(0, frames[0].insert(slot, value))),
        Err(e) => Err(e),
    }
}

/// The frames after a new, empty frame was opened inside the given ones.
pub open spec fn opened(frames: Seq<Frame>) -> Seq<Frame> {
    seq![Map::<usize, Value>::empty()] + frames
}

/// Every slot of `before` is still there in `after`, in the same frame and
/// of the same type, and there are as many frames as there were.
pub open spec fn keeps_types(before: Seq<Frame>, after: Seq<Frame>) -> bool {
    &&& before.len() == after.len()
    &&& forall|i: int, slot: usize|
        0 <= i < before.len() && #[trigger] before[i].contains_key(slot) ==> after[i].contains_key(
            slot,
        ) && after[i][slot].kind() == before[i][slot].kind()
}

/// An assignment takes no slot away and changes the type of none.
pub proof fn lemma_stored_keeps_types(frames: Seq<Frame>, slot: usize, value: Value)
    ensures
        match stored(frames, slot, value) {
            Ok(Some(after)) => keeps_types(frames, after),
            _ => true,
        },
    decreases frames.len(),
{
    if frames.len() > 0 && !frames[0].contains_key(slot) {
        lemma_stored_keeps_types(frames.drop_first(), slot, value);
        if let Ok(Some(outer)) = stored(frames.drop_first(), slot, value) {
            let after = seq![frames[0]] + outer;
            assert forall|i: int, s: usize|
                0 <= i < frames.len() && #[trigger] frames[i].contains_key(s) implies after[i].contains_key(
                s,
            ) && after[i][s].kind() == frames[i][s].kind() by {
                if i > 0 {
                    assert(frames.drop_first()[i - 1] == frames[i]);
                    assert(frames.drop_first()[i - 1].contains_key(s));
                    assert(after[i] == outer[i - 1]);
                }
            }
        }
    }
}

/// A declaration takes no slot away and changes the type of none.
pub proof fn lemma_declared_keeps_types(frames: Seq<Frame>, slot: usize, value: Value)
    requires
        frames.len() >= 1,
    ensures
        match declared(frames, slot, value) {
            Ok(after) => keeps_types(frames, after),
            Err(_) => true,
        },
        match assigned_or_declared(frames, slot, value) {
            Ok(after) => keeps_types(frames, after),
            Err(_) => true,
        },
{
    lemma_stored_keeps_types(frames, slot, value);
}

/// A slot that was just declared is there, of the type that was asked for,
/// and nothing is assigned to it yet.
pub proof fn lemma_declared_slot_is_unset(frames: Seq<Frame>, count: usize, slot: usize)
    requires
        frames.len() >= 1,
        declared_by_count(frames, count, slot) is Ok,
    ensures
        Type::of_count(count) matches Some(kind) && lookup(
            declared_by_count(frames, count, slot)->Ok_0,
            slot,
        ) == Some(Value::unset(kind)) && Value::unset(kind).is_null() && Value::unset(kind).kind()
            == kind,
{
}

/// A slot that was declared in the innermost frame cannot be declared
/// there again.
pub proof fn lemma_second_declaration_fails(
    frames: Seq<Frame>,
    slot: usize,
    first: Value,
    second: Value,
)
    requires
        frames.len() >= 1,
        declared(frames, slot, first) is Ok,
    ensures
        declared(declared(frames, slot, first)->Ok_0, slot, second) == Err::<Seq<Frame>, Error>(
            slot_fault(ErrorKind::DuplicateDeclaration, slot),
        ),
{
}

/// In a frame that was just opened every slot can be declared, whatever
/// the frames around it hold; and the frames around it stay as they are.
pub proof fn lemma_fresh_frame_takes_any_slot(frames: Seq<Frame>, slot: usize, value: Value)
    ensures
        declared(opened(frames), slot, value) is Ok,
        declared(opened(frames), slot, value)->Ok_0.drop_first() == frames,
        lookup(declared(opened(frames), slot, value)->Ok_0, slot) == Some(value),
{
    let after = declared(opened(frames), slot, value)->Ok_0;
    assert(after.drop_first() == frames);
}

/// A value can only be assigned to a slot of its own type.
pub proof fn lemma_assignment_wants_the_type(frames: Seq<Frame>, slot: usize, value: Value)
    requires
        lookup(frames, slot) is Some,
        lookup(frames, slot)->0.kind() != value.kind(),
    ensures
        stored(frames, slot, value) == Err::<Option<Seq<Frame>>, Error>(
            slot_fault(ErrorKind::TypeMismatch, slot),
        ),
        assigned(frames, slot, value) == Err::<Seq<Frame>, Error>(
            slot_fault(ErrorKind::TypeMismatch, slot),
        ),
        assigned_or_declared(frames, slot, value) == Err::<Seq<Frame>, Error>(
            slot_fault(ErrorKind::TypeMismatch, slot),
        ),
    decreases frames.len(),
{
    if frames.len() > 0 && !frames[0].contains_key(slot) {
        lemma_assignment_wants_the_type(frames.drop_first(), slot, value);
    }
}

/// After an assignment the slot has the value that was assigned, and every
/// other slot has the value that it had. No slot changes its type.
pub proof fn lemma_assignment_keeps_types(
    frames: Seq<Frame>,
    slot: usize,
    value: Value,
    other: usize,
)
    requires
        stored(frames, slot, value) matches Ok(Some(_)),
    ensures
        lookup(frames, slot) is Some,
        lookup(frames, slot)->0.kind() == value.kind(),
        lookup(stored(frames, slot, value)->Ok_0->0, slot) == Some(value),
        other != slot ==> lookup(stored(frames, slot, value)->Ok_0->0, other) == lookup(
            frames,
            other,
        ),
    decreases frames.len(),
{
    let after = stored(frames, slot, value)->Ok_0->0;
    if frames.len() > 0 {
        if frames[0].contains_key(slot) {
            assert(after.drop_first() == frames.drop_first());
        } else {
            lemma_assignment_keeps_types(frames.drop_first(), slot, value, other);
            assert(after.drop_first() == stored(frames.drop_first(), slot, value)->Ok_0->0);
        }
    }
}

/// An assignment to a slot that no frame holds declares it, with the type
/// of the value, in the innermost frame; every other slot has the value
/// that it had.
pub proof fn lemma_assignment_declares(frames: Seq<Frame>, slot: usize, value: Value, other: usize)
    requires
        frames.len() >= 1,
        lookup(frames, slot) is None,
    ensures
        assigned(frames, slot, value) == Err::<Seq<Frame>, Error>(
            slot_fault(ErrorKind::UndeclaredVariable, slot),
        ),
        assigned_or_declared(frames, slot, value) is Ok,
        lookup(assigned_or_declared(frames, slot, value)->Ok_0, slot) == Some(value),
        other != slot ==> lookup(assigned_or_declared(frames, slot, value)->Ok_0, other) == lookup(
            frames,
            other,
        ),
{
    lemma_unheld_slot_is_not_stored(frames, slot, value);
    let after = frames.update(0, frames[0].insert(slot, value));
    assert(after.drop_first() == frames.drop_first());
}

/// Nothing is stored in a slot that no frame holds.
pub proof fn lemma_unheld_slot_is_not_stored(frames: Seq<Frame>, slot: usize, value: Value)
    requires
        lookup(frames, slot) is None,
    ensures
        stored(frames, slot, value) == Ok::<Option<Seq<Frame>>, Error>(None),
    decreases frames.len(),
{
    if frames.len() > 0 {
        lemma_unheld_slot_is_not_stored(frames.drop_first(), slot, value);
    }
}

fn slot_failure(kind: ErrorKind, slot: usize) -> (e: Error)
    ensures
        e == slot_fault(kind, slot),
{
    Error { kind, path: None, slot: Some(slot) }
}

impl View for Scope {
    type V = Seq<Frame>;

    closed spec fn view(&self) -> Seq<Frame> {
        self.frames()
    }
}

impl Scope {
    spec fn own(&self) -> Frame {
        self.variables@.map_values(|value: Variable| value@)
    }

    spec fn frames(&self) -> Seq<Frame>
        decreases self,
    {
        match self.parent {
            Some(parent) => seq![self.own()] + parent.frames(),
            None => seq![self.own()],
        }
    }

    proof fn lemma_outer_frames(&self)
        ensures
            self.frames()[0] == self.own(),
            self.frames().drop_first() == match self.parent {
                Some(parent) => parent.frames(),
                None => Seq::<Frame>::empty(),
            },
    {
    }

    /// A scope has at least one frame.
    pub proof fn lemma_has_frame(&self)
        ensures
            self@.len() >= 1,
    {
    }

    /// Opens a new, empty frame: inside `parent` if there is one, else as
    /// the outermost.
    pub fn new(parent: Option<Scope>) -> (scope: Scope)
        ensures
            match parent {
                Some(outer) => scope@ == opened(outer@),
                None => scope@ == seq![Map::<usize, Value>::empty()],
            },
    {
        let variables: HashMap<usize, Variable> = HashMap::new();
        assert(variables@.map_values(|value: Variable| value@) == Map::<usize, Value>::empty());
        match parent {
            Some(outer) => Scope { variables, parent: Some(Box::new(outer)) },
            None => Scope { variables, parent: None },
        }
    }

    /// Closes the innermost frame and hands back the scope around it, if
    /// there is one.
    pub fn into_parent(self) -> (outer: Option<Scope>)
        ensures
            match outer {
                Some(outer) => outer@ == self@.drop_first(),
                None => self@.len() == 1,
            },
    {
        match self.parent {
            Some(outer) => {
                assert(self.frames().drop_first() == outer.frames());
                Some(*outer)
            },
            None => None,
        }
    }

    /// Declares a slot in the innermost frame, of the type that
    /// `folders_count` selects. Nothing is assigned to it yet.
    pub fn declare_variable(&mut self, folders_count: usize, index: usize) -> (r: Result<(), Error>)
        ensures
            match r {
                Ok(_) => declared_by_count(old(self)@, folders_count, index) == Ok::<
                    Seq<Frame>,
                    Error,
                >(final(self)@),
                Err(e) => declared_by_count(old(self)@, folders_count, index) == Err::<
                    Seq<Frame>,
                    Error,
                >(e) && final(self)@ == old(self)@,
            },
    {
        if self.variables.contains_key(&index) {
            return Err(slot_failure(ErrorKind::DuplicateDeclaration, index));
        }
        let variable = Variable::new(folders_count)?;
        self.insert(index, variable);
        Ok(())
    }

    /// Declares a slot of the given type in the innermost frame.
    pub fn declare_variable_with_type(&mut self, var_type: Type, index: usize) -> (r: Result<
        (),
        Error,
    >)
        ensures
            match r {
                Ok(_) => declared(old(self)@, index, Value::unset(var_type)) == Ok::<
                    Seq<Frame>,
                    Error,
                >(final(self)@),
                Err(e) => declared(old(self)@, index, Value::unset(var_type)) == Err::<
                    Seq<Frame>,
                    Error,
                >(e) && final(self)@ == old(self)@,
            },
    {
        if self.variables.contains_key(&index) {
            return Err(slot_failure(ErrorKind::DuplicateDeclaration, index));
        }
        let var = Variable::from(var_type);
        self.insert(index, var);
        Ok(())
    }

    fn insert(&mut self, index: usize, value: Variable)
        ensures
            final(self)@ == old(self)@.update(0, old(self)@[0].insert(index, value@)),
            final(self)@.len() == old(self)@.len(),
    {
        self.variables.insert(index, value);
        assert(self.own() == old(self).own().insert(index, value@));
        assert(self.frames() == old(self).frames().update(
            0,
            old(self).frames()[0].insert(index, value@),
        ));
    }

    /// Looks a slot up, in the innermost frame first and then outwards.
    pub fn get_variable(&self, index: usize) -> (found: Option<Variable>)
        ensures
            match found {
                Some(value) => lookup(self@, index) == Some(value@),
                None => lookup(self@, index) is None,
            },
        decreases self,
    {
        if let Some(var) = self.variables.get(&index) {
            return Some(var.clone());
        }
        proof {
            self.lemma_outer_frames();
            assert(lookup(Seq::<Frame>::empty(), index) is None);
        }
        if let Some(scope) = &self.parent {
            if let Some(var) = scope.get_variable(index) {
                return Some(var);
            }
        }
        None
    }

    fn _set_variable(&mut self, index: usize, value: Variable) -> (r: Result<bool, Error>)
        ensures
            match r {
                Ok(true) => stored(old(self)@, index, value@) == Ok::<Option<Seq<Frame>>, Error>(
                    Some(final(self)@),
                ),
                Ok(false) => stored(old(self)@, index, value@) == Ok::<Option<Seq<Frame>>, Error>(
                    None,
                ) && final(self)@ == old(self)@,
                Err(e) => stored(old(self)@, index, value@) == Err::<Option<Seq<Frame>>, Error>(e)
                    && final(self)@ == old(self)@,
            },
        decreases old(self)@.len(),
    {
        if self.variables.contains_key(&index) {
            let fits = match self.variables.get(&index) {
                Some(var) => var.same_as(&value),
                None => false,
            };
            if !fits {
                return Err(slot_failure(ErrorKind::TypeMismatch, index));
            }
            self.insert(index, value);
            return Ok(true);
        }
        proof {
            self.lemma_outer_frames();
            assert(stored(Seq::<Frame>::empty(), index, value@) == Ok::<Option<Seq<Frame>>, Error>(
                None,
            ));
        }
        match self.parent.take() {
            Some(mut parent) => {
                let r = parent._set_variable(index, value);
                self.parent = Some(parent);
                r
            },
            None => Ok(false),
        }
    }

    /// Assigns to a slot that some frame holds.
    pub fn set_variable(&mut self, index: usize, value: Variable) -> (r: Result<(), Error>)
        ensures
            match r {
                Ok(_) => assigned(old(self)@, index, value@) == Ok::<Seq<Frame>, Error>(
                    final(self)@,
                ),
                Err(e) => assigned(old(self)@, index, value@) == Err::<Seq<Frame>, Error>(e)
                    && final(self)@ == old(self)@,
            },
    {
        if self._set_variable(index, value)? {
            Ok(())
        } else {
            Err(slot_failure(ErrorKind::UndeclaredVariable, index))
        }
    }

    /// Assigns to a slot, and declares it in the innermost frame if no
    /// frame holds it.
    pub fn set_or_create_variable(&mut self, index: usize, value: Variable) -> (r: Result<
        (),
        Error,
    >)
        ensures
            match r {
                Ok(_) => assigned_or_declared(old(self)@, index, value@) == Ok::<Seq<Frame>, Error>(
                    final(self)@,
                ),
                Err(e) => assigned_or_declared(old(self)@, index, value@) == Err::<
                    Seq<Frame>,
                    Error,
                >(e) && final(self)@ == old(self)@,
            },
    {
        if !self._set_variable(index, value.clone())? {
            self.insert(index, value);
        }
        Ok(())
    }
}

} // verus!
