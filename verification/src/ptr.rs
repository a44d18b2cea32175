//! Same-document JSON Pointer references: the resolution semantics and a
//! verified resolver for the `$ref` keyword.

use vstd::prelude::*;

verus! {

use vstd::string::StrSliceExecFns;
use crate::value::Value;
use crate::value::lookup_seq;
use crate::value::lookup;

/// The distance from `j` to the next `/` in `r`, or to the end of `r`.
pub open spec fn sep_off(r: Seq<char>, j: nat) -> nat
    decreases (if j <= r.len() {
        r.len() - j
    } else {
        0
    }),
{
    if j >= r.len() {
        0
    } else if r[j as int] == '/' {
        0
    } else {
        1 + sep_off(r, j + 1)
    }
}

/// A reference token with `~0`/`~1` escapes decoded; a stray `~` is an error.
pub open spec fn unescape(t: Seq<char>) -> Option<Seq<char>>
    decreases t.len(),
{
    if t.len() == 0 {
        Some(Seq::empty())
    } else if t[0] == '~' {
        if t.len() >= 2 && t[1] == '0' {
            match unescape(t.skip(2)) {
                Some(u) => Some(seq!['~'] + u),
                None => None,
            }
        } else if t.len() >= 2 && t[1] == '1' {
            match unescape(t.skip(2)) {
                Some(u) => Some(seq!['/'] + u),
                None => None,
            }
        } else {
            None
        }
    } else {
        match unescape(t.drop_first()) {
            Some(u) => Some(seq![t[0]] + u),
            None => None,
        }
    }
}

pub open spec fn digit_val(c: char) -> int {
    if c == '0' {
        0
    } else if c == '1' {
        1
    } else if c == '2' {
        2
    } else if c == '3' {
        3
    } else if c == '4' {
        4
    } else if c == '5' {
        5
    } else if c == '6' {
        6
    } else if c == '7' {
        7
    } else if c == '8' {
        8
    } else if c == '9' {
        9
    } else {
        -1
    }
}

pub open spec fn all_digits(t: Seq<char>) -> bool {
    forall|q: int| 0 <= q < t.len() ==> digit_val(t[q]) >= 0
}

/// The numeric value of a digit string, most significant digit first.
pub open spec fn digits_val(t: Seq<char>) -> int
    decreases t.len(),
{
    if t.len() == 0 {
        0
    } else {
        digits_val(t.take(t.len() - 1)) * 10 + digit_val(t[t.len() - 1])
    }
}

/// An array index token: digits only, no leading zero except for `0` itself.
pub open spec fn parse_index(t: Seq<char>) -> Option<int> {
    if t.len() == 0 || !all_digits(t) {
        None
    } else if t.len() > 1 && t[0] == '0' {
        None
    } else {
        Some(digits_val(t))
    }
}

/// One dereference step: a decoded token applied to an object or an array.
pub open spec fn ptr_step(cur: Value, tok: Seq<char>) -> Option<Value> {
    match unescape(tok) {
        None => None,
        Some(t) => match cur {
            Value::Object(ms) => lookup_seq(ms@, t),
            Value::Array(items) => match parse_index(t) {
                Some(ix) => if 0 <= ix < items@.len() {
                    Some(items@[ix])
                } else {
                    None
                },
                None => None,
            },
            _ => None,
        },
    }
}

/// Resolution of the pointer tail of `r` starting at position `i` against `cur`.
pub open spec fn resolve_rel(cur: Value, r: Seq<char>, i: nat) -> Option<Value>
    decreases (if i <= r.len() {
        r.len() - i
    } else {
        0
    }),
{
    if i >= r.len() {
        Some(cur)
    } else if r[i as int] != '/' {
        None
    } else {
        let off = sep_off(r, i + 1);
        let tok = r.subrange(i as int + 1, i as int + 1 + off);
        match ptr_step(cur, tok) {
            Some(c) => resolve_rel(c, r, (i + 1 + off) as nat),
            None => None,
        }
    }
}

/// Resolution of a same-document JSON Pointer reference, `#` followed by
/// `/`-separated tokens, against the root document.
pub open spec fn ptr_resolve(root: Value, r: Seq<char>) -> Option<Value> {
    if r.len() == 0 || r[0] != '#' {
        None
    } else {
        resolve_rel(root, r, 1)
    }
}

proof fn lemma_digits_val_nonneg(t: Seq<char>)
    requires
        all_digits(t),
    ensures
        digits_val(t) >= 0,
    decreases t.len(),
{
    if t.len() > 0 {
        assert(all_digits(t.take(t.len() - 1)));
        lemma_digits_val_nonneg(t.take(t.len() - 1));
    }
}

proof fn lemma_digits_val_lower(t: Seq<char>)
    requires
        all_digits(t),
        t.len() >= 1,
        t[0] != '0',
    ensures
        digits_val(t) >= crate::num::pow10((t.len() - 1) as nat),
    decreases t.len(),
{
    if t.len() == 1 {
        assert(t.take(t.len() - 1).len() == 0);
        assert(digits_val(t.take(t.len() - 1)) == 0);
        assert(digits_val(t) == digits_val(t.take(t.len() - 1)) * 10 + digit_val(t[t.len() - 1]));
        assert(digit_val(t[0]) >= 1);
        assert(crate::num::pow10((t.len() - 1) as nat) == 1);
    } else {
        let h = t.take(t.len() - 1);
        assert(all_digits(h));
        assert(h[0] == t[0]);
        lemma_digits_val_lower(h);
        assert(digit_val(t[t.len() - 1]) >= 0);
        assert(digits_val(t) == digits_val(h) * 10 + digit_val(t[t.len() - 1]));
        vstd::arithmetic::mul::lemma_mul_inequality(
            crate::num::pow10((t.len() - 2) as nat),
            digits_val(h),
            10,
        );
        assert(digits_val(h) * 10 >= crate::num::pow10((t.len() - 2) as nat) * 10);
        assert(crate::num::pow10((t.len() - 1) as nat) == 10 * crate::num::pow10(
            (t.len() - 2) as nat,
        ));
        assert(crate::num::pow10((t.len() - 2) as nat) * 10 == 10 * crate::num::pow10(
            (t.len() - 2) as nat,
        ));
    }
}

/// The position just past the token that starts at `j`.
fn scan_token(r: &str, j: usize, n: usize) -> (p: usize)
    requires
        j <= n == r@.len(),
    ensures
        j <= p <= n,
        p == j + sep_off(r@, j as nat),
{
    let mut p = j;
    while p < n && r.get_char(p) != '/'
        invariant
            j <= p <= n == r@.len(),
            sep_off(r@, j as nat) == (p - j) + sep_off(r@, p as nat),
        decreases n - p,
    {
        p = p + 1;
    }
    p
}

/// Decodes the token `r[from..to]`, or reports a bad escape.
fn unescape_range(r: &str, from: usize, to: usize) -> (res: Option<String>)
    requires
        from <= to <= r@.len(),
    ensures
        match res {
            Some(s) => unescape(r@.subrange(from as int, to as int)) == Some(s@),
            None => unescape(r@.subrange(from as int, to as int)) is None,
        },
    decreases to - from,
{
    let ghost t = r@.subrange(from as int, to as int);
    if from == to {
        proof {
            assert(t.len() == 0);
        }
        return Some(String::new());
    }
    let c = r.get_char(from);
    proof {
        assert(t[0] == r@[from as int]);
    }
    if c == '~' {
        if from + 1 == to {
            return None;
        }
        let c2 = r.get_char(from + 1);
        proof {
            assert(t[1] == r@[from as int + 1]);
            assert(t.skip(2) =~= r@.subrange(from as int + 2, to as int));
        }
        if c2 == '0' {
            match unescape_range(r, from + 2, to) {
                Some(u) => {
                    let mut s = String::new();
                    crate::render::push_char(&mut s, '~');
                    let res = s.concat(u.as_str());
                    proof {
                        assert(res@ =~= seq!['~'] + u@);
                    }
                    Some(res)
                },
                None => None,
            }
        } else if c2 == '1' {
            match unescape_range(r, from + 2, to) {
                Some(u) => {
                    let mut s = String::new();
                    crate::render::push_char(&mut s, '/');
                    let res = s.concat(u.as_str());
                    proof {
                        assert(res@ =~= seq!['/'] + u@);
                    }
                    Some(res)
                },
                None => None,
            }
        } else {
            None
        }
    } else {
        proof {
            assert(t.drop_first() =~= r@.subrange(from as int + 1, to as int));
        }
        match unescape_range(r, from + 1, to) {
            Some(u) => {
                let mut s = String::new();
                crate::render::push_char(&mut s, c);
                let res = s.concat(u.as_str());
                proof {
                    assert(res@ =~= seq![r@[from as int]] + u@);
                }
                Some(res)
            },
            None => None,
        }
    }
}

/// Looks a decoded index token up in an array.
fn index_step<'a>(items: &'a Vec<Value>, t: &String) -> (res: Option<&'a Value>)
    ensures
        match res {
            Some(c) => match parse_index(t@) {
                Some(ix) => 0 <= ix < items@.len() && *c == items@[ix],
                None => false,
            },
            None => match parse_index(t@) {
                Some(ix) => !(0 <= ix < items@.len()),
                None => true,
            },
        },
{
    let n = t.as_str().unicode_len();
    if n == 0 {
        return None;
    }
    if n > 1 && t.as_str().get_char(0) == '0' {
        return None;
    }
    let mut acc: u128 = 0;
    let mut i: usize = 0;
    proof {
        assert(t@.take(0) =~= Seq::<char>::empty());
        crate::num::lemma_pow10_20();
    }
    while i < n
        invariant
            i <= n == t@.len(),
            all_digits(t@.take(i as int)),
            acc == digits_val(t@.take(i as int)),
            acc < crate::num::pow10(i as nat),
            i <= 20,
            n > 1 ==> t@[0] != '0',
        decreases n - i,
    {
        let c = t.as_str().get_char(i);
        let d: u128 = if c == '0' {
            0
        } else if c == '1' {
            1
        } else if c == '2' {
            2
        } else if c == '3' {
            3
        } else if c == '4' {
            4
        } else if c == '5' {
            5
        } else if c == '6' {
            6
        } else if c == '7' {
            7
        } else if c == '8' {
            8
        } else if c == '9' {
            9
        } else {
            return None;
        };
        proof {
            assert(digit_val(t@[i as int]) == d);
            assert(t@.take(i as int + 1).take(i as int) =~= t@.take(i as int));
            assert(t@.take(i as int + 1)[i as int] == t@[i as int]);
            assert(forall|q: int|
                0 <= q < i + 1 ==> digit_val(#[trigger] t@.take(i as int + 1)[q]) >= 0);
            crate::num::lemma_pow10_20();
        }
        if i >= 20 {
            // at least 21 digits: the index exceeds any possible array length
            let l64: u64 = items.len() as u64;
            proof {
                assert(t@.take(n as int) =~= t@);
                assert(items@.len() == l64);
                crate::num::lemma_pow10_20();
                if all_digits(t@) {
                    lemma_digits_val_lower(t@);
                    crate::num::lemma_pow10_mono(20, (n - 1) as nat);
                    lemma_digits_val_nonneg(t@);
                }
            }
            return None;
        }
        proof {
            crate::num::lemma_pow10_mono((i + 1) as nat, 20);
            crate::num::lemma_pow10_20();
        }
        acc = acc * 10 + d;
        i = i + 1;
    }
    proof {
        assert(t@.take(n as int) =~= t@);
    }
    if acc < items.len() as u128 {
        Some(&items[acc as usize])
    } else {
        None
    }
}

/// Resolves the pointer tail of `r` from position `i` against `cur`.
fn resolve_rel_exec<'a>(cur: &'a Value, r: &str, i: usize, n: usize) -> (res: Option<&'a Value>)
    requires
        i <= n == r@.len(),
    ensures
        match res {
            Some(t) => resolve_rel(*cur, r@, i as nat) == Some(*t),
            None => resolve_rel(*cur, r@, i as nat) is None,
        },
    decreases n - i,
{
    if i == n {
        return Some(cur);
    }
    if r.get_char(i) != '/' {
        return None;
    }
    let p = scan_token(r, i + 1, n);
    let tok = match unescape_range(r, i + 1, p) {
        Some(t) => t,
        None => {
            return None;
        },
    };
    proof {
        assert(r@.subrange(i as int + 1, i as int + 1 + sep_off(r@, (i + 1) as nat))
            =~= r@.subrange(i as int + 1, p as int));
    }
    let child: Option<&Value> = match cur {
        Value::Object(ms) => lookup(ms, &tok),
        Value::Array(items) => index_step(items, &tok),
        _ => None,
    };
    match child {
        Some(c) => resolve_rel_exec(c, r, p, n),
        None => None,
    }
}

/// Resolves a same-document JSON Pointer reference against the root document.
pub fn resolve_pointer<'a>(root: &'a Value, r: &str) -> (res: Option<&'a Value>)
    ensures
        match res {
            Some(t) => ptr_resolve(*root, r@) == Some(*t),
            None => ptr_resolve(*root, r@) is None,
        },
{
    let n = r.unicode_len();
    if n == 0 {
        return None;
    }
    if r.get_char(0) != '#' {
        return None;
    }
    resolve_rel_exec(root, r, 1, n)
}

} // verus!
