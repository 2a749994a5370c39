use vstd::prelude::*;
use crate::data::objects::Value;

verus! {

/// The number of argument slots that are still empty.
pub open spec fn holes(bound: Seq<Option<Value>>) -> nat
    decreases bound.len(),
{
    if bound.len() == 0 {
        0
    } else {
        holes(bound.drop_first()) + if bound[0] is None {
            1nat
        } else {
            0nat
        }
    }
}

/// The argument slots after the empty ones were given `slots`, one each
/// from left to right until either runs out. A slot that is given an empty
/// slot stays empty.
pub open spec fn fill_slots(bound: Seq<Option<Value>>, slots: Seq<Option<Value>>) -> Seq<
    Option<Value>,
>
    decreases bound.len(),
{
    if bound.len() == 0 {
        Seq::empty()
    } else if bound[0] is None && slots.len() > 0 {
        seq![slots[0]] + fill_slots(bound.drop_first(), slots.drop_first())
    } else {
        seq![bound[0]] + fill_slots(bound.drop_first(), slots)
    }
}

/// An argument as a filled slot.
pub open spec fn filled(value: Value) -> Option<Value> {
    Some(value)
}

/// The argument slots after the empty ones were given `args`, one each from
/// left to right until either runs out.
pub open spec fn fill(bound: Seq<Option<Value>>, args: Seq<Value>) -> Seq<Option<Value>> {
    fill_slots(bound, args.map_values(|v: Value| filled(v)))
}

/// A value of an argument list as a slot: the hole marker is an empty slot.
pub open spec fn as_slot(value: Value) -> Option<Value> {
    if value is Hole {
        None
    } else {
        Some(value)
    }
}

/// The arguments that full slots hold.
pub open spec fn slot_values(bound: Seq<Option<Value>>) -> Seq<Value> {
    bound.map_values(|slot: Option<Value>| slot->Some_0)
}

/// Filling keeps the number of slots, and takes as many holes away as
/// there are arguments, or all of them.
pub proof fn lemma_fill_holes(bound: Seq<Option<Value>>, args: Seq<Value>)
    ensures
        fill(bound, args).len() == bound.len(),
        holes(bound) <= bound.len(),
        holes(fill(bound, args)) == if args.len() >= holes(bound) {
            0
        } else {
            holes(bound) - args.len()
        },
    decreases bound.len(),
{
    let slots = args.map_values(|v: Value| filled(v));
    if bound.len() > 0 {
        if bound[0] is None && slots.len() > 0 {
            lemma_fill_holes(bound.drop_first(), args.drop_first());
            assert(slots.drop_first() =~= args.drop_first().map_values(|v: Value| filled(v)));
            let rest = fill_slots(bound.drop_first(), slots.drop_first());
            assert((seq![slots[0]] + rest).drop_first() =~= rest);
        } else {
            lemma_fill_holes(bound.drop_first(), args);
            let rest = fill_slots(bound.drop_first(), slots);
            assert((seq![bound[0]] + rest).drop_first() =~= rest);
        }
    }
}

/// Partial application is associative: giving the arguments `first` and
/// then the arguments `second` fills the slots as giving `first` followed
/// by `second` at once does.
pub proof fn lemma_fill_associative(bound: Seq<Option<Value>>, first: Seq<Value>, second: Seq<Value>)
    ensures
        fill(fill(bound, first), second) == fill(bound, first + second),
    decreases bound.len(),
{
    let s1 = first.map_values(|v: Value| filled(v));
    let s2 = second.map_values(|v: Value| filled(v));
    let s12 = (first + second).map_values(|v: Value| filled(v));
    assert(s12 =~= s1 + s2);
    if bound.len() == 0 {
    } else if bound[0] is None {
        if first.len() > 0 {
            lemma_fill_associative(bound.drop_first(), first.drop_first(), second);
            assert(s1.drop_first() =~= first.drop_first().map_values(|v: Value| filled(v)));
            assert(s12.drop_first() =~= (first.drop_first() + second).map_values(
                |v: Value| filled(v),
            ));
            let inner = fill_slots(bound.drop_first(), s1.drop_first());
            let once = seq![s1[0]] + inner;
            assert(once.drop_first() =~= inner);
            assert(once[0] is Some);
            assert(s12[0] == s1[0]);
            assert(fill_slots(once, s2) =~= seq![once[0]] + fill_slots(inner, s2));
        } else {
            assert(first + second =~= second);
            assert(s1 =~= Seq::<Option<Value>>::empty());
            lemma_fill_nothing(bound);
        }
    } else {
        assert(holes(bound.drop_first()) == holes(bound));
        lemma_fill_associative(bound.drop_first(), first, second);
        let inner = fill_slots(bound.drop_first(), s1);
        let once = seq![bound[0]] + inner;
        assert(once.drop_first() =~= inner);
        assert(fill_slots(once, s2) =~= seq![once[0]] + fill_slots(inner, s2));
    }
}

/// Two applications come to the same call as one: where `first` leaves
/// holes and `second` fills them, the partial application that `first`
/// makes is called by `second` with the very arguments that `first`
/// followed by `second` calls the callee with at once.
pub proof fn lemma_same_eventual_call(
    bound: Seq<Option<Value>>,
    first: Seq<Value>,
    second: Seq<Value>,
)
    requires
        first.len() + second.len() == holes(bound),
    ensures
        holes(fill(bound, first)) == second.len(),
        holes(fill(fill(bound, first), second)) == 0,
        holes(fill(bound, first + second)) == 0,
        slot_values(fill(fill(bound, first), second)) == slot_values(fill(bound, first + second)),
{
    lemma_fill_holes(bound, first);
    lemma_fill_holes(fill(bound, first), second);
    lemma_fill_holes(bound, first + second);
    lemma_fill_associative(bound, first, second);
}

/// Giving no arguments leaves the slots as they are.
pub proof fn lemma_fill_nothing(bound: Seq<Option<Value>>)
    ensures
        fill_slots(bound, Seq::empty()) == bound,
    decreases bound.len(),
{
    if bound.len() > 0 {
        lemma_fill_nothing(bound.drop_first());
        assert(seq![bound[0]] + bound.drop_first() =~= bound);
    }
}

/// Counts the empty argument slots.
pub fn count_holes(bound: &Vec<Option<Value>>) -> (n: usize)
    ensures
        n == holes(bound@),
{
    let mut n: usize = 0;
    let mut i: usize = bound.len();
    proof {
        assert(bound@.subrange(i as int, bound@.len() as int) =~= Seq::<Option<Value>>::empty());
    }
    while i > 0
        invariant
            i <= bound.len(),
            n == holes(bound@.subrange(i as int, bound@.len() as int)),
            n <= bound.len() - i,
        decreases i,
    {
        i -= 1;
        proof {
            assert(bound@.subrange(i as int, bound@.len() as int).drop_first() =~= bound@.subrange(
                i + 1,
                bound@.len() as int,
            ));
        }
        if bound[i].is_none() {
            n += 1;
        }
    }
    proof {
        assert(bound@.subrange(0, bound@.len() as int) =~= bound@);
    }
    n
}

/// Gives the empty slots of `bound` the slots `slots`, one each from left
/// to right until either runs out.
pub fn fill_in(bound: &Vec<Option<Value>>, slots: &Vec<Option<Value>>) -> (result: Vec<Option<Value>>)
    ensures
        result@ == fill_slots(bound@, slots@),
{
    let mut result: Vec<Option<Value>> = Vec::new();
    let mut i: usize = 0;
    let mut j: usize = 0;
    proof {
        assert(bound@.subrange(0, bound@.len() as int) =~= bound@);
        assert(slots@.subrange(0, slots@.len() as int) =~= slots@);
        assert(result@ + fill_slots(bound@, slots@) =~= fill_slots(bound@, slots@));
    }
    while i < bound.len()
        invariant
            i <= bound.len(),
            j <= slots.len(),
            result@ + fill_slots(
                bound@.subrange(i as int, bound@.len() as int),
                slots@.subrange(j as int, slots@.len() as int),
            ) == fill_slots(bound@, slots@),
        decreases bound.len() - i,
    {
        let ghost rest = bound@.subrange(i as int, bound@.len() as int);
        let ghost left = slots@.subrange(j as int, slots@.len() as int);
        proof {
            assert(rest.drop_first() =~= bound@.subrange(i + 1, bound@.len() as int));
            assert(rest[0] == bound@[i as int]);
        }
        if bound[i].is_none() && j < slots.len() {
            proof {
                assert(left.drop_first() =~= slots@.subrange(j + 1, slots@.len() as int));
                assert(left[0] == slots@[j as int]);
                assert(result@.push(slots@[j as int]) + fill_slots(rest.drop_first(), left.drop_first())
                    =~= result@ + fill_slots(rest, left));
            }
            result.push(slots[j]);
            j += 1;
        } else {
            proof {
                assert(result@.push(bound@[i as int]) + fill_slots(rest.drop_first(), left)
                    =~= result@ + fill_slots(rest, left));
            }
            result.push(bound[i]);
        }
        i += 1;
    }
    proof {
        assert(bound@.subrange(i as int, bound@.len() as int) =~= Seq::<Option<Value>>::empty());
        assert(result@ + Seq::<Option<Value>>::empty() =~= result@);
    }
    result
}

/// Turns the values of an argument list into slots: the hole marker
/// becomes an empty slot.
pub fn to_slots(args: &Vec<Value>, keep_holes: bool) -> (slots: Vec<Option<Value>>)
    ensures
        keep_holes ==> slots@ == args@.map_values(|v: Value| as_slot(v)),
        !keep_holes ==> slots@ == args@.map_values(|v: Value| filled(v)),
{
    let mut slots: Vec<Option<Value>> = Vec::new();
    let mut i: usize = 0;
    while i < args.len()
        invariant
            i <= args.len(),
            keep_holes ==> slots@ == args@.subrange(0, i as int).map_values(|v: Value| as_slot(v)),
            !keep_holes ==> slots@ == args@.subrange(0, i as int).map_values(|v: Value| filled(v)),
        decreases args.len() - i,
    {
        let slot = match args[i] {
            Value::Hole => if keep_holes {
                None
            } else {
                Some(Value::Hole)
            },
            v => Some(v),
        };
        slots.push(slot);
        i += 1;
        proof {
            if keep_holes {
                assert(slots@ =~= args@.subrange(0, i as int).map_values(|v: Value| as_slot(v)));
            } else {
                assert(slots@ =~= args@.subrange(0, i as int).map_values(|v: Value| filled(v)));
            }
        }
    }
    proof {
        assert(args@.subrange(0, i as int) =~= args@);
    }
    slots
}

/// The arguments that the slots hold, where none is empty.
pub fn values_of(bound: &Vec<Option<Value>>) -> (values: Option<Vec<Value>>)
    ensures
        values is Some == (holes(bound@) == 0),
        values is Some ==> values->Some_0@ == slot_values(bound@),
{
    let mut values: Vec<Value> = Vec::new();
    let mut i: usize = 0;
    while i < bound.len()
        invariant
            i <= bound.len(),
            values@ == slot_values(bound@.subrange(0, i as int)),
            forall|j: int| 0 <= j < i ==> (#[trigger] bound@[j]) is Some,
        decreases bound.len() - i,
    {
        match bound[i] {
            Some(v) => {
                values.push(v);
            },
            None => {
                proof {
                    lemma_holes_positive(bound@, i as int);
                }
                return None;
            },
        }
        i += 1;
        proof {
            assert(values@ =~= slot_values(bound@.subrange(0, i as int)));
        }
    }
    proof {
        assert(bound@.subrange(0, i as int) =~= bound@);
        lemma_no_holes(bound@);
    }
    Some(values)
}

proof fn lemma_holes_positive(bound: Seq<Option<Value>>, k: int)
    requires
        0 <= k < bound.len(),
        bound[k] is None,
    ensures
        holes(bound) > 0,
    decreases bound.len(),
{
    if k > 0 {
        lemma_holes_positive(bound.drop_first(), k - 1);
    }
}

proof fn lemma_no_holes(bound: Seq<Option<Value>>)
    requires
        forall|j: int| 0 <= j < bound.len() ==> (#[trigger] bound[j]) is Some,
    ensures
        holes(bound) == 0,
    decreases bound.len(),
{
    if bound.len() > 0 {
        assert(bound[0] is Some);
        assert forall|j: int| 0 <= j < bound.drop_first().len() implies (
        #[trigger] bound.drop_first()[j]) is Some by {
            assert(bound[j + 1] is Some);
        }
        lemma_no_holes(bound.drop_first());
    }
}

} // verus!
