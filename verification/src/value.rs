//! The abstract JSON value model shared by schemas and instances, with
//! JSON equality and member lookup.

use vstd::prelude::*;

verus! {

use crate::num::Num;
use crate::num::num_eq;
use crate::num::num_cmp;
use crate::num::NumOrd;

/// An abstract JSON value.  Both schema documents and instance documents are
/// given in this form: object member order and array order are preserved, and
/// numbers are exact decimals.
pub enum Value {
    Null,
    Bool(bool),
    Number(Num),
    Str(String),
    Array(Vec<Value>),
    Object(Vec<(String, Value)>),
}

/// Structural size, the measure for recursion over values.
pub open spec fn value_size(v: Value) -> nat
    decreases v,
{
    match v {
        Value::Array(items) => 1 + seq_value_size(items@),
        Value::Object(members) => 1 + seq_member_size(members@),
        _ => 1,
    }
}

pub open spec fn seq_value_size(items: Seq<Value>) -> nat
    decreases items,
{
    if items.len() == 0 {
        0
    } else {
        value_size(items[0]) + seq_value_size(items.drop_first())
    }
}

pub open spec fn seq_member_size(members: Seq<(String, Value)>) -> nat
    decreases members,
{
    if members.len() == 0 {
        0
    } else {
        value_size(members[0].1) + seq_member_size(members.drop_first())
    }
}

pub proof fn lemma_value_size_pos(v: Value)
    ensures
        value_size(v) >= 1,
{
}

pub proof fn lemma_seq_size_unfold(s: Seq<Value>, i: int)
    requires
        0 <= i < s.len(),
    ensures
        seq_value_size(s.skip(i)) == value_size(s[i]) + seq_value_size(s.skip(i + 1)),
{
    assert(s.skip(i).drop_first() =~= s.skip(i + 1));
    assert(s.skip(i)[0] == s[i]);
}

pub proof fn lemma_member_size_unfold(s: Seq<(String, Value)>, i: int)
    requires
        0 <= i < s.len(),
    ensures
        seq_member_size(s.skip(i)) == value_size(s[i].1) + seq_member_size(s.skip(i + 1)),
{
    assert(s.skip(i).drop_first() =~= s.skip(i + 1));
    assert(s.skip(i)[0] == s[i]);
}

/// The first member of `members` named `k`, if any.
pub open spec fn lookup_seq(members: Seq<(String, Value)>, k: Seq<char>) -> Option<Value>
    decreases members,
{
    if members.len() == 0 {
        None
    } else if members[0].0@ == k {
        Some(members[0].1)
    } else {
        lookup_seq(members.drop_first(), k)
    }
}

/// JSON equality of two values: numbers compare as rationals, object members
/// compare by key regardless of member order, arrays compare in order.
pub open spec fn value_equiv(a: Value, b: Value) -> bool
    decreases value_size(a), 0nat, 0nat,
{
    match (a, b) {
        (Value::Null, Value::Null) => true,
        (Value::Bool(x), Value::Bool(y)) => x == y,
        (Value::Number(x), Value::Number(y)) => num_eq(x, y),
        (Value::Str(x), Value::Str(y)) => x@ == y@,
        (Value::Array(x), Value::Array(y)) => seq_equiv(x@, y@),
        (Value::Object(x), Value::Object(y)) => members_equiv(x@, y@),
        _ => false,
    }
}

pub open spec fn seq_equiv(x: Seq<Value>, y: Seq<Value>) -> bool
    decreases seq_value_size(x), x.len(), 0nat,
{
    &&& x.len() == y.len()
    &&& (x.len() == 0 || {
        &&& value_equiv(x[0], y[0])
        &&& seq_equiv(x.drop_first(), y.drop_first())
    })
}

/// Every member of `x` has a member of the same name in `y` whose value is
/// equivalent.
pub open spec fn members_fwd(x: Seq<(String, Value)>, y: Seq<(String, Value)>) -> bool
    decreases seq_member_size(x), x.len(), 0nat,
{
    x.len() == 0 || {
        &&& match lookup_seq(y, x[0].0@) {
            Some(w) => value_equiv(x[0].1, w),
            None => false,
        }
        &&& members_fwd(x.drop_first(), y)
    }
}

/// Every member name of `y` also names a member of `x`.
pub open spec fn keys_contained(y: Seq<(String, Value)>, x: Seq<(String, Value)>) -> bool
    decreases y,
{
    y.len() == 0 || {
        &&& lookup_seq(x, y[0].0@) is Some
        &&& keys_contained(y.drop_first(), x)
    }
}

pub open spec fn members_equiv(x: Seq<(String, Value)>, y: Seq<(String, Value)>) -> bool
    decreases seq_member_size(x), x.len(), 1nat,
{
    &&& x.len() == y.len()
    &&& members_fwd(x, y)
    &&& keys_contained(y, x)
}

/// The first member of `members` named `k`, if any.
pub fn lookup<'a>(members: &'a Vec<(String, Value)>, k: &String) -> (r: Option<&'a Value>)
    ensures
        match r {
            Some(v) => lookup_seq(members@, k@) == Some(*v),
            None => lookup_seq(members@, k@) is None,
        },
{
    let n = members.len();
    let mut i: usize = 0;
    proof {
        assert(members@.skip(0) =~= members@);
    }
    while i < n
        invariant
            i <= n == members@.len(),
            lookup_seq(members@, k@) == lookup_seq(members@.skip(i as int), k@),
        decreases n - i,
    {
        proof {
            assert(members@.skip(i as int).drop_first() =~= members@.skip(i as int + 1));
            assert(members@.skip(i as int)[0] == members@[i as int]);
        }
        if members[i].0 == *k {
            return Some(&members[i].1);
        }
        i = i + 1;
    }
    None
}

/// JSON equality, as `value_equiv` states it.
pub fn value_eq(a: &Value, b: &Value) -> (r: bool)
    ensures
        r == value_equiv(*a, *b),
    decreases value_size(*a), 0nat, 2nat,
{
    match (a, b) {
        (Value::Null, Value::Null) => {
            proof {
                assert(value_equiv(*a, *b));
            }
            true
        },
        (Value::Bool(x), Value::Bool(y)) => {
            let r = *x == *y;
            proof {
                assert(r == value_equiv(*a, *b));
            }
            r
        },
        (Value::Number(x), Value::Number(y)) => {
            let c = num_cmp(x, y);
            let r = matches!(c, NumOrd::Equal);
            proof {
                assert(r == value_equiv(*a, *b));
            }
            r
        },
        (Value::Str(x), Value::Str(y)) => {
            let r = *x == *y;
            proof {
                assert(r == value_equiv(*a, *b));
            }
            r
        },
        (Value::Array(x), Value::Array(y)) => {
            proof {
                assert(x@.skip(0) =~= x@);
                assert(y@.skip(0) =~= y@);
            }
            let r = arr_eq_from(x, y, 0);
            proof {
                assert(r == value_equiv(*a, *b));
            }
            r
        },
        (Value::Object(x), Value::Object(y)) => {
            if x.len() != y.len() {
                proof {
                    assert(!value_equiv(*a, *b));
                }
                return false;
            }
            proof {
                assert(x@.skip(0) =~= x@);
                assert(y@.skip(0) =~= y@);
            }
            let fwd = obj_fwd_from(x, y, 0);
            if !fwd {
                proof {
                    assert(!value_equiv(*a, *b));
                }
                return false;
            }
            let r = keys_contained_from(y, x, 0);
            proof {
                assert(r == value_equiv(*a, *b));
            }
            r
        },
        _ => {
            proof {
                assert(!value_equiv(*a, *b));
            }
            false
        },
    }
}

fn arr_eq_from(x: &Vec<Value>, y: &Vec<Value>, i: usize) -> (r: bool)
    requires
        i <= x@.len(),
        i <= y@.len(),
    ensures
        r == seq_equiv(x@.skip(i as int), y@.skip(i as int)),
    decreases seq_value_size(x@.skip(i as int)), x@.len() - i, 0nat,
{
    let ghost sx = x@.skip(i as int);
    let ghost sy = y@.skip(i as int);
    if i == x.len() {
        return i == y.len();
    }
    if i == y.len() {
        return false;
    }
    proof {
        lemma_seq_size_unfold(x@, i as int);
        lemma_value_size_pos(x@[i as int]);
        assert(sx.drop_first() =~= x@.skip(i as int + 1));
        assert(sy.drop_first() =~= y@.skip(i as int + 1));
        assert(sx[0] == x@[i as int]);
        assert(sy[0] == y@[i as int]);
    }
    if !value_eq(&x[i], &y[i]) {
        return false;
    }
    arr_eq_from(x, y, i + 1)
}

fn obj_fwd_from(x: &Vec<(String, Value)>, y: &Vec<(String, Value)>, i: usize) -> (r: bool)
    requires
        i <= x@.len(),
    ensures
        r == members_fwd(x@.skip(i as int), y@),
    decreases seq_member_size(x@.skip(i as int)), x@.len() - i, 0nat,
{
    let ghost sx = x@.skip(i as int);
    if i == x.len() {
        return true;
    }
    proof {
        lemma_member_size_unfold(x@, i as int);
        lemma_value_size_pos(x@[i as int].1);
        assert(sx.drop_first() =~= x@.skip(i as int + 1));
        assert(sx[0] == x@[i as int]);
    }
    let found = lookup(y, &x[i].0);
    match found {
        Some(w) => {
            if !value_eq(&x[i].1, w) {
                return false;
            }
            obj_fwd_from(x, y, i + 1)
        },
        None => false,
    }
}

fn keys_contained_from(y: &Vec<(String, Value)>, x: &Vec<(String, Value)>, i: usize) -> (r:
    bool)
    requires
        i <= y@.len(),
    ensures
        r == keys_contained(y@.skip(i as int), x@),
    decreases y@.len() - i,
{
    let ghost sy = y@.skip(i as int);
    if i == y.len() {
        return true;
    }
    proof {
        assert(sy.drop_first() =~= y@.skip(i as int + 1));
        assert(sy[0] == y@[i as int]);
    }
    let found = lookup(x, &y[i].0);
    match found {
        Some(_) => keys_contained_from(y, x, i + 1),
        None => false,
    }
}

} // verus!
