//! State machine inputs (booleans, numbers and fire-once triggers) and the choice of
//! the transition a layer takes.
use vstd::prelude::*;

verus! {

/// Comparison of a transition condition.
#[derive(Clone, Copy, Debug, PartialEq, Eq, Structural)]
pub enum ConditionOp {
    Equal,
    NotEqual,
    GreaterThan,
    LessThan,
    GreaterEqual,
    LessEqual,
}

/// Kinds of state.
#[derive(Clone, Copy, Debug, PartialEq, Eq, Structural)]
pub enum StateType {
    Entry,
    Exit,
    Animation,
    AnyState,
    BlendState1D,
}

/// A state machine input value. A number is held as the bit pattern of its 32-bit
/// float value.
#[derive(Clone, Copy, Debug, PartialEq, Eq, Structural)]
pub enum SMInput {
    Bool(bool),
    Number(u32),
    Trigger(bool),
}

/// The position of the first entry named `name`.
pub open spec fn first_entry(entries: Seq<(Seq<char>, SMInput)>, name: Seq<char>, from: int) -> Option<int>
    decreases entries.len() - from,
{
    if from < 0 || from >= entries.len() {
        None
    } else if entries[from].0 == name {
        Some(from)
    } else {
        first_entry(entries, name, from + 1)
    }
}

/// The value of input `name`, if it was ever set.
pub open spec fn lookup(entries: Seq<(Seq<char>, SMInput)>, name: Seq<char>) -> Option<SMInput> {
    match first_entry(entries, name, 0) {
        Some(i) => Some(entries[i].1),
        None => None,
    }
}

/// The entries after setting input `name` to `v`: its entry is replaced, or a new entry
/// is added at the end.
pub open spec fn spec_set(entries: Seq<(Seq<char>, SMInput)>, name: Seq<char>, v: SMInput) -> Seq<(Seq<char>, SMInput)> {
    match first_entry(entries, name, 0) {
        Some(i) => entries.update(i, (name, v)),
        None => entries.push((name, v)),
    }
}

/// A trigger after evaluation: no longer fired. Other inputs keep their value.
pub open spec fn reset_input(v: SMInput) -> SMInput {
    match v {
        SMInput::Trigger(_) => SMInput::Trigger(false),
        _ => v,
    }
}

/// The entries after every trigger is reset.
pub open spec fn spec_reset(entries: Seq<(Seq<char>, SMInput)>) -> Seq<(Seq<char>, SMInput)> {
    entries.map_values(|e: (Seq<char>, SMInput)| (e.0, reset_input(e.1)))
}

/// The named inputs of a state machine.
#[derive(Clone, Debug)]
pub struct InputStore {
    entries: Vec<(String, SMInput)>,
}

impl View for InputStore {
    type V = Seq<(Seq<char>, SMInput)>;

    closed spec fn view(&self) -> Seq<(Seq<char>, SMInput)> {
        self.entries@.map_values(|e: (String, SMInput)| (e.0@, e.1))
    }
}

proof fn lemma_first_entry_bounds(entries: Seq<(Seq<char>, SMInput)>, name: Seq<char>, from: int)
    ensures
        first_entry(entries, name, from) matches Some(i) ==> from <= i < entries.len() && entries[i].0
            == name,
    decreases entries.len() - from,
{
    if from >= 0 && from < entries.len() && entries[from].0 != name {
        lemma_first_entry_bounds(entries, name, from + 1);
    }
}

impl InputStore {
    pub fn new() -> (s: InputStore)
        ensures
            s@ == Seq::<(Seq<char>, SMInput)>::empty(),
    {
        let s = InputStore { entries: Vec::new() };
        proof {
            assert(s@ =~= Seq::<(Seq<char>, SMInput)>::empty());
        }
        s
    }

    fn find(&self, name: &String) -> (r: Option<usize>)
        ensures
            r matches Some(i) ==> first_entry(self@, name@, 0) == Some(i as int),
            r is None ==> first_entry(self@, name@, 0) is None,
    {
        let mut i: usize = 0;
        while i < self.entries.len()
            invariant
                0 <= i <= self.entries@.len(),
                self@.len() == self.entries@.len(),
                first_entry(self@, name@, 0) == first_entry(self@, name@, i as int),
            decreases self.entries@.len() - i,
        {
            proof {
                assert(self@[i as int] == (self.entries@[i as int].0@, self.entries@[i as int].1));
            }
            if self.entries[i].0 == *name {
                return Some(i);
            }
            i = i + 1;
        }
        None
    }

    /// Sets input `name` to `v`.
    pub fn set(&mut self, name: &str, v: SMInput)
        ensures
            final(self)@ == spec_set(old(self)@, name@, v),
    {
        let key = name.to_owned();
        match self.find(&key) {
            Some(i) => {
                proof {
                    lemma_first_entry_bounds(self@, name@, 0);
                }
                self.entries.set(i, (key, v));
                proof {
                    assert(self@ =~= spec_set(old(self)@, name@, v));
                }
            },
            None => {
                self.entries.push((key, v));
                proof {
                    assert(self@ =~= spec_set(old(self)@, name@, v));
                }
            },
        }
    }

    /// The value of input `name`, if it was ever set.
    pub fn get(&self, name: &str) -> (r: Option<SMInput>)
        ensures
            r == lookup(self@, name@),
    {
        let key = name.to_owned();
        match self.find(&key) {
            Some(i) => {
                proof {
                    lemma_first_entry_bounds(self@, name@, 0);
                }
                Some(self.entries[i].1)
            },
            None => None,
        }
    }

    pub fn set_bool(&mut self, name: &str, value: bool)
        ensures
            final(self)@ == spec_set(old(self)@, name@, SMInput::Bool(value)),
    {
        self.set(name, SMInput::Bool(value));
    }

    /// A boolean input's value; false when `name` is not a boolean input.
    pub fn get_bool(&self, name: &str) -> (r: bool)
        ensures
            r == (lookup(self@, name@) == Some(SMInput::Bool(true))),
    {
        match self.get(name) {
            Some(SMInput::Bool(v)) => v,
            _ => false,
        }
    }

    /// Sets number input `name` to the float with bit pattern `bits`.
    pub fn set_number(&mut self, name: &str, bits: u32)
        ensures
            final(self)@ == spec_set(old(self)@, name@, SMInput::Number(bits)),
    {
        self.set(name, SMInput::Number(bits));
    }

    /// A number input's bit pattern; 0 (the bits of 0.0) when `name` is not a number input.
    pub fn get_number(&self, name: &str) -> (r: u32)
        ensures
            lookup(self@, name@) matches Some(SMInput::Number(b)) ==> r == b,
            !(lookup(self@, name@) matches Some(SMInput::Number(_))) ==> r == 0,
    {
        match self.get(name) {
            Some(SMInput::Number(v)) => v,
            _ => 0,
        }
    }

    /// Fires trigger `name` until the next reset.
    pub fn fire_trigger(&mut self, name: &str)
        ensures
            final(self)@ == spec_set(old(self)@, name@, SMInput::Trigger(true)),
    {
        self.set(name, SMInput::Trigger(true));
    }

    /// Resets every trigger after the inputs were evaluated.
    pub fn reset_triggers(&mut self)
        ensures
            final(self)@ == spec_reset(old(self)@),
            final(self)@.len() == old(self)@.len(),
            forall|i: int|
                0 <= i < old(self)@.len() ==> (#[trigger] final(self)@[i]).0 == old(self)@[i].0,
            forall|i: int|
                0 <= i < old(self)@.len() && (#[trigger] old(self)@[i]).1 is Trigger
                    ==> final(self)@[i].1 == SMInput::Trigger(false),
            forall|i: int|
                0 <= i < old(self)@.len() && !((#[trigger] old(self)@[i]).1 is Trigger)
                    ==> final(self)@[i].1 == old(self)@[i].1,
    {
        let mut i: usize = 0;
        while i < self.entries.len()
            invariant
                0 <= i <= self.entries@.len(),
                self.entries@.len() == old(self).entries@.len(),
                forall|j: int|
                    0 <= j < i ==> #[trigger] self.entries@[j] == (old(self).entries@[j].0, reset_input(
                        old(self).entries@[j].1,
                    )),
                forall|j: int| i <= j < self.entries@.len() ==> #[trigger] self.entries@[j] == old(self).entries@[j],
            decreases self.entries@.len() - i,
        {
            if let SMInput::Trigger(_) = self.entries[i].1 {
                let name = self.entries[i].0.clone();
                self.entries.set(i, (name, SMInput::Trigger(false)));
            }
            i = i + 1;
        }
        proof {
            assert(self@ =~= spec_reset(old(self)@));
        }
    }
}

/// Reading an input gives what was last written to it.
pub proof fn lemma_set_then_lookup(entries: Seq<(Seq<char>, SMInput)>, name: Seq<char>, v: SMInput)
    ensures
        lookup(spec_set(entries, name, v), name) == Some(v),
{
    lemma_first_entry_bounds(entries, name, 0);
    let s = spec_set(entries, name, v);
    match first_entry(entries, name, 0) {
        Some(i) => {
            lemma_first_entry_same_prefix(entries, s, name, 0, i);
        },
        None => {
            lemma_first_entry_none_prefix(entries, s, name, 0);
        },
    }
}

/// Writing one input leaves every other input as it was.
pub proof fn lemma_set_keeps_others(entries: Seq<(Seq<char>, SMInput)>, name: Seq<char>, other: Seq<char>, v: SMInput)
    requires
        name != other,
    ensures
        lookup(spec_set(entries, name, v), other) == lookup(entries, other),
{
    lemma_first_entry_bounds(entries, name, 0);
    lemma_first_entry_bounds(entries, other, 0);
    let s = spec_set(entries, name, v);
    lemma_first_entry_other(entries, s, other, 0);
}

/// After the reset that follows an evaluation, a fired trigger reads as not fired, and
/// booleans and numbers keep their value.
pub proof fn lemma_reset_triggers(entries: Seq<(Seq<char>, SMInput)>, name: Seq<char>)
    ensures
        lookup(spec_reset(entries), name) == match lookup(entries, name) {
            Some(v) => Some(reset_input(v)),
            None => None,
        },
{
    lemma_first_entry_bounds(entries, name, 0);
    lemma_first_entry_reset(entries, name, 0);
}

/// Resetting triggers clears every fired trigger and leaves every boolean and number
/// input, and every input never set, as it was.
pub proof fn lemma_reset_keeps_values(entries: Seq<(Seq<char>, SMInput)>, name: Seq<char>)
    ensures
        lookup(spec_reset(entries), name) == match lookup(entries, name) {
            Some(SMInput::Trigger(_)) => Some(SMInput::Trigger(false)),
            Some(SMInput::Number(b)) => Some(SMInput::Number(b)),
            Some(SMInput::Bool(v)) => Some(SMInput::Bool(v)),
            None => None,
        },
{
    lemma_reset_triggers(entries, name);
}

/// A trigger fired and then reset reads as not fired.
pub proof fn lemma_trigger_fires_once(entries: Seq<(Seq<char>, SMInput)>, name: Seq<char>)
    ensures
        lookup(spec_reset(spec_set(entries, name, SMInput::Trigger(true))), name) == Some(
            SMInput::Trigger(false),
        ),
{
    lemma_set_then_lookup(entries, name, SMInput::Trigger(true));
    lemma_reset_triggers(spec_set(entries, name, SMInput::Trigger(true)), name);
}

proof fn lemma_first_entry_same_prefix(
    a: Seq<(Seq<char>, SMInput)>,
    b: Seq<(Seq<char>, SMInput)>,
    name: Seq<char>,
    from: int,
    i: int,
)
    requires
        0 <= from <= i < a.len(),
        a.len() == b.len(),
        first_entry(a, name, from) == Some(i),
        forall|j: int| 0 <= j < a.len() ==> (#[trigger] a[j]).0 == b[j].0,
    ensures
        first_entry(b, name, from) == Some(i),
    decreases i - from,
{
    lemma_first_entry_bounds(a, name, from + 1);
    assert(a[from].0 == b[from].0);
    if from < i {
        lemma_first_entry_same_prefix(a, b, name, from + 1, i);
    }
}

proof fn lemma_first_entry_none_prefix(
    a: Seq<(Seq<char>, SMInput)>,
    b: Seq<(Seq<char>, SMInput)>,
    name: Seq<char>,
    from: int,
)
    requires
        0 <= from <= a.len(),
        b.len() == a.len() + 1,
        b[a.len() as int].0 == name,
        first_entry(a, name, from) is None,
        forall|j: int| 0 <= j < a.len() ==> (#[trigger] a[j]).0 == b[j].0,
    ensures
        first_entry(b, name, from) == Some(a.len() as int),
    decreases a.len() - from,
{
    if from < a.len() {
        lemma_first_entry_none_prefix(a, b, name, from + 1);
    }
}

proof fn lemma_first_entry_other(
    a: Seq<(Seq<char>, SMInput)>,
    b: Seq<(Seq<char>, SMInput)>,
    other: Seq<char>,
    from: int,
)
    requires
        0 <= from,
        b.len() >= a.len(),
        forall|j: int| 0 <= j < a.len() ==> ((#[trigger] b[j]).0 == other <==> a[j].0 == other),
        forall|j: int| 0 <= j < a.len() && a[j].0 == other ==> #[trigger] b[j] == a[j],
        forall|j: int| a.len() <= j < b.len() ==> (#[trigger] b[j]).0 != other,
    ensures
        match first_entry(a, other, from) {
            Some(i) => first_entry(b, other, from) == Some(i) && b[i] == a[i],
            None => first_entry(b, other, from) is None,
        },
    decreases b.len() - from,
{
    if from < b.len() {
        lemma_first_entry_other(a, b, other, from + 1);
    }
}

proof fn lemma_first_entry_reset(entries: Seq<(Seq<char>, SMInput)>, name: Seq<char>, from: int)
    requires
        0 <= from,
    ensures
        first_entry(spec_reset(entries), name, from) == first_entry(entries, name, from),
    decreases entries.len() - from,
{
    if from < entries.len() {
        lemma_first_entry_reset(entries, name, from + 1);
    }
}

// ─── Transitions ────────────────────────────────────────────

/// The first transition from `from` on that leaves state `current` and is eligible
/// (its exit time has passed and all its conditions hold).
pub open spec fn first_transition(from_states: Seq<usize>, current: usize, eligible: Seq<bool>, from: int) -> Option<int>
    decreases from_states.len() - from,
{
    if from < 0 || from >= from_states.len() {
        None
    } else if from_states[from] == current && eligible[from] {
        Some(from)
    } else {
        first_transition(from_states, current, eligible, from + 1)
    }
}

/// The transition that a layer resting in state `current` starts: the first, in list
/// order, that leaves `current` and is eligible.
pub fn select_transition(from_states: &Vec<usize>, current: usize, eligible: &Vec<bool>) -> (r: Option<usize>)
    requires
        eligible@.len() == from_states@.len(),
    ensures
        r matches Some(i) ==> first_transition(from_states@, current, eligible@, 0) == Some(i as int),
        r is None ==> first_transition(from_states@, current, eligible@, 0) is None,
{
    let mut i: usize = 0;
    while i < from_states.len()
        invariant
            0 <= i <= from_states@.len(),
            eligible@.len() == from_states@.len(),
            first_transition(from_states@, current, eligible@, 0) == first_transition(
                from_states@,
                current,
                eligible@,
                i as int,
            ),
        decreases from_states@.len() - i,
    {
        if from_states[i] == current && eligible[i] {
            return Some(i);
        }
        i = i + 1;
    }
    None
}

/// The transition chosen leaves the current state, is eligible, and no earlier
/// transition from the current state is.
pub proof fn lemma_selected_transition_is_first(
    from_states: Seq<usize>,
    current: usize,
    eligible: Seq<bool>,
    from: int,
)
    requires
        0 <= from,
    ensures
        first_transition(from_states, current, eligible, from) matches Some(i) ==> {
            &&& from <= i < from_states.len()
            &&& from_states[i] == current
            &&& eligible[i]
            &&& forall|j: int| from <= j < i ==> !(from_states[j] == current && #[trigger] eligible[j])
        },
        first_transition(from_states, current, eligible, from) is None ==> forall|j: int|
            from <= j < from_states.len() ==> !(from_states[j] == current && #[trigger] eligible[j]),
    decreases from_states.len() - from,
{
    if from < from_states.len() {
        lemma_selected_transition_is_first(from_states, current, eligible, from + 1);
    }
}

} // verus!
