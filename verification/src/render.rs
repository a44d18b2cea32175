//! Canonical compact rendering of values, numbers and strings, used for
//! the deterministic text of violation messages.

use vstd::prelude::*;

verus! {

use vstd::string::StringExecFns;
use vstd::string::StrSliceExecFns;
use vstd::math::abs;
use crate::num::Num;
use crate::value::Value;
use crate::value::value_size;
use crate::value::seq_value_size;
use crate::value::seq_member_size;
use crate::value::lemma_value_size_pos;
use crate::value::lemma_seq_size_unfold;
use crate::value::lemma_member_size_unfold;

/// Relies on String::push from std: appends one character at the end.
#[verifier::external_body]
pub fn push_char(s: &mut String, c: char)
    ensures
        final(s)@ == old(s)@ + seq![c],
{
    s.push(c);
}

pub open spec fn digit_char(d: int) -> char {
    if d == 0 {
        '0'
    } else if d == 1 {
        '1'
    } else if d == 2 {
        '2'
    } else if d == 3 {
        '3'
    } else if d == 4 {
        '4'
    } else if d == 5 {
        '5'
    } else if d == 6 {
        '6'
    } else if d == 7 {
        '7'
    } else if d == 8 {
        '8'
    } else {
        '9'
    }
}

/// The decimal digits of `n`, most significant first.
pub open spec fn dec_digits(n: nat) -> Seq<char>
    decreases n,
{
    if n < 10 {
        seq![digit_char(n as int)]
    } else {
        dec_digits(n / 10) + seq![digit_char((n % 10) as int)]
    }
}

fn digit_of(d: u64) -> (c: char)
    requires
        d < 10,
    ensures
        c == digit_char(d as int),
{
    if d == 0 {
        '0'
    } else if d == 1 {
        '1'
    } else if d == 2 {
        '2'
    } else if d == 3 {
        '3'
    } else if d == 4 {
        '4'
    } else if d == 5 {
        '5'
    } else if d == 6 {
        '6'
    } else if d == 7 {
        '7'
    } else if d == 8 {
        '8'
    } else {
        '9'
    }
}

/// Appends the decimal rendering of `x`.
pub fn push_u64_digits(x: u64, out: &mut String)
    ensures
        final(out)@ == old(out)@ + dec_digits(x as nat),
    decreases x,
{
    if x >= 10 {
        push_u64_digits(x / 10, out);
    }
    let c = digit_of(x % 10);
    push_char(out, c);
}

/// `k` zero characters.
pub open spec fn zeros(k: nat) -> Seq<char> {
    Seq::new(k, |i: int| '0')
}

fn push_zeros(k: u64, out: &mut String)
    ensures
        final(out)@ == old(out)@ + zeros(k as nat),
{
    let mut j: u64 = 0;
    while j < k
        invariant
            j <= k,
            out@ == old(out)@ + zeros(j as nat),
        decreases k - j,
    {
        push_char(out, '0');
        proof {
            assert(zeros((j + 1) as nat) =~= zeros(j as nat) + seq!['0']);
        }
        j = j + 1;
    }
    proof {
        assert(zeros(0) =~= Seq::<char>::empty());
    }
}

/// The rendering of a nonnegative decimal `m * 10^exp`.
pub open spec fn dec_render(m: nat, exp: int) -> Seq<char> {
    if exp >= 0 {
        dec_digits(m) + zeros(exp as nat)
    } else {
        let ds = dec_digits(m);
        let k = -exp;
        if ds.len() > k {
            ds.take(ds.len() - k) + seq!['.'] + ds.skip(ds.len() - k)
        } else {
            seq!['0', '.'] + zeros((k - ds.len()) as nat) + ds
        }
    }
}

/// The rendering of a number: sign, then its nonnegative part.
pub open spec fn num_render(n: Num) -> Seq<char> {
    if n.mant < 0 {
        seq!['-'] + dec_render(abs(n.mant as int), n.exp as int)
    } else {
        dec_render(n.mant as nat, n.exp as int)
    }
}

/// A number below `10^d` renders in at most `d` digits.
proof fn lemma_dec_digits_len(n: nat, d: nat)
    requires
        d >= 1,
        n < crate::num::pow10(d),
    ensures
        1 <= dec_digits(n).len() <= d,
    decreases d,
{
    if n < 10 {
    } else {
        assert(crate::num::pow10(d) == 10 * crate::num::pow10((d - 1) as nat));
        vstd::arithmetic::div_mod::lemma_multiply_divide_lt(
            n as int,
            10,
            crate::num::pow10((d - 1) as nat),
        );
        lemma_dec_digits_len(n / 10, (d - 1) as nat);
    }
}

/// Appends the rendering of a number.
pub fn push_num(n: &Num, out: &mut String)
    ensures
        final(out)@ == old(out)@ + num_render(*n),
{
    if n.mant < 0 {
        push_char(out, '-');
    }
    let m: u64 = n.mant.unsigned_abs();
    if n.exp >= 0 {
        push_u64_digits(m, out);
        push_zeros(n.exp as u64, out);
    } else {
        let k: u64 = (-(n.exp as i64)) as u64;
        let mut ds = String::new();
        push_u64_digits(m, &mut ds);
        proof {
            crate::num::lemma_pow10_20();
            lemma_dec_digits_len(m as nat, 20);
        }
        let dl = ds.as_str().unicode_len();
        if (dl as u64) > k {
            let cut = dl - (k as usize);
            let head = ds.as_str().substring_char(0, cut);
            let tail = ds.as_str().substring_char(cut, dl);
            proof {
                assert(head@ =~= dec_digits(m as nat).take(dl - k));
                assert(tail@ =~= dec_digits(m as nat).skip(dl - k));
            }
            out.append(head);
            push_char(out, '.');
            out.append(tail);
        } else {
            out.append("0.");
            proof {
                reveal_strlit("0.");
                assert("0."@ =~= seq!['0', '.']);
            }
            push_zeros(k - dl as u64, out);
            out.append(ds.as_str());
        }
    }
}

/// A character as it appears inside a rendered JSON string literal.
pub open spec fn escape_char(c: char) -> Seq<char> {
    if c == '"' {
        seq!['\\', '"']
    } else if c == '\\' {
        seq!['\\', '\\']
    } else if c == '\n' {
        seq!['\\', 'n']
    } else if c == '\t' {
        seq!['\\', 't']
    } else if c == '\r' {
        seq!['\\', 'r']
    } else {
        seq![c]
    }
}

/// A string as it appears inside quotes in rendered JSON.
pub open spec fn escape_str(s: Seq<char>) -> Seq<char>
    decreases s.len(),
{
    if s.len() == 0 {
        Seq::empty()
    } else {
        escape_char(s[0]) + escape_str(s.drop_first())
    }
}

proof fn lemma_escape_snoc(s: Seq<char>, c: char)
    ensures
        escape_str(s + seq![c]) == escape_str(s) + escape_char(c),
    decreases s.len(),
{
    if s.len() == 0 {
        let t = s + seq![c];
        assert(t.len() == 1);
        assert(t[0] == c);
        assert(t.drop_first() =~= Seq::<char>::empty());
        assert(escape_str(t.drop_first()) == Seq::<char>::empty());
        assert(escape_str(t) == escape_char(t[0]) + escape_str(t.drop_first()));
        assert(escape_char(c) + Seq::<char>::empty() =~= escape_char(c));
        assert(escape_str(s) + escape_char(c) =~= escape_char(c));
    } else {
        lemma_escape_snoc(s.drop_first(), c);
        assert((s + seq![c]).drop_first() =~= s.drop_first() + seq![c]);
        assert((s + seq![c])[0] == s[0]);
        assert(escape_char(s[0]) + (escape_str(s.drop_first()) + escape_char(c)) =~= (escape_char(
            s[0],
        ) + escape_str(s.drop_first())) + escape_char(c));
    }
}

fn push_escaped_char(c: char, out: &mut String)
    ensures
        final(out)@ == old(out)@ + escape_char(c),
{
    if c == '"' {
        push_char(out, '\\');
        push_char(out, '"');
    } else if c == '\\' {
        push_char(out, '\\');
        push_char(out, '\\');
    } else if c == '\n' {
        push_char(out, '\\');
        push_char(out, 'n');
    } else if c == '\t' {
        push_char(out, '\\');
        push_char(out, 't');
    } else if c == '\r' {
        push_char(out, '\\');
        push_char(out, 'r');
    } else {
        push_char(out, c);
    }
    proof {
        assert(old(out)@ + seq!['\\'] + seq!['"'] =~= old(out)@ + (seq!['\\', '"']));
        assert(old(out)@ + seq!['\\'] + seq!['\\'] =~= old(out)@ + (seq!['\\', '\\']));
        assert(old(out)@ + seq!['\\'] + seq!['n'] =~= old(out)@ + (seq!['\\', 'n']));
        assert(old(out)@ + seq!['\\'] + seq!['t'] =~= old(out)@ + (seq!['\\', 't']));
        assert(old(out)@ + seq!['\\'] + seq!['r'] =~= old(out)@ + (seq!['\\', 'r']));
    }
}

/// Appends `s` with JSON escaping.
pub fn push_escaped(s: &str, out: &mut String)
    ensures
        final(out)@ == old(out)@ + escape_str(s@),
{
    let n = s.unicode_len();
    let mut i: usize = 0;
    proof {
        assert(s@.take(0) =~= Seq::<char>::empty());
        assert(escape_str(s@.take(0)) =~= Seq::<char>::empty());
    }
    while i < n
        invariant
            i <= n == s@.len(),
            out@ == old(out)@ + escape_str(s@.take(i as int)),
        decreases n - i,
    {
        let c = s.get_char(i);
        push_escaped_char(c, out);
        proof {
            lemma_escape_snoc(s@.take(i as int), c);
            assert(s@.take(i as int) + seq![c] =~= s@.take(i as int + 1));
        }
        i = i + 1;
    }
    proof {
        assert(s@.take(n as int) =~= s@);
    }
}

/// The canonical compact rendering of a JSON value, used in messages.
pub open spec fn render(v: Value) -> Seq<char>
    decreases value_size(v), 0nat, 0nat,
{
    match v {
        Value::Null => "null"@,
        Value::Bool(b) => if b {
            "true"@
        } else {
            "false"@
        },
        Value::Number(n) => num_render(n),
        Value::Str(s) => seq!['"'] + escape_str(s@) + seq!['"'],
        Value::Array(items) => seq!['['] + render_items(items@) + seq![']'],
        Value::Object(ms) => seq!['{'] + render_members(ms@) + seq!['}'],
    }
}

pub open spec fn render_items(items: Seq<Value>) -> Seq<char>
    decreases seq_value_size(items), items.len(), 0nat,
{
    if items.len() == 0 {
        Seq::empty()
    } else if items.len() == 1 {
        render(items[0])
    } else {
        render(items[0]) + seq![','] + render_items(items.drop_first())
    }
}

pub open spec fn render_members(ms: Seq<(String, Value)>) -> Seq<char>
    decreases seq_member_size(ms), ms.len(), 0nat,
{
    if ms.len() == 0 {
        Seq::empty()
    } else if ms.len() == 1 {
        render_member(ms[0])
    } else {
        render_member(ms[0]) + seq![','] + render_members(ms.drop_first())
    }
}

pub open spec fn render_member(m: (String, Value)) -> Seq<char>
    decreases value_size(m.1), 0nat, 1nat,
{
    seq!['"'] + escape_str(m.0@) + seq!['"', ':'] + render(m.1)
}

/// Appends the rendering of a value.
pub fn push_value(v: &Value, out: &mut String)
    ensures
        final(out)@ == old(out)@ + render(*v),
    decreases value_size(*v), 0nat, 2nat,
{
    match v {
        Value::Null => {
            out.append("null");
        },
        Value::Bool(b) => {
            if *b {
                out.append("true");
            } else {
                out.append("false");
            }
        },
        Value::Number(n) => {
            push_num(n, out);
        },
        Value::Str(s) => {
            push_char(out, '"');
            push_escaped(s.as_str(), out);
            push_char(out, '"');
            proof {
                assert(old(out)@ + seq!['"'] + escape_str(s@) + seq!['"'] =~= old(out)@ + (
                seq!['"'] + escape_str(s@) + seq!['"']));
            }
        },
        Value::Array(items) => {
            proof {
                assert(items@.skip(0) =~= items@);
            }
            push_char(out, '[');
            push_items_from(items, 0, out);
            push_char(out, ']');
            proof {
                assert(items@.skip(0) =~= items@);
                assert(old(out)@ + seq!['['] + render_items(items@) + seq![']'] =~= old(out)@ + (
                seq!['['] + render_items(items@) + seq![']']));
            }
        },
        Value::Object(ms) => {
            proof {
                assert(ms@.skip(0) =~= ms@);
            }
            push_char(out, '{');
            push_members_from(ms, 0, out);
            push_char(out, '}');
            proof {
                assert(ms@.skip(0) =~= ms@);
                assert(old(out)@ + seq!['{'] + render_members(ms@) + seq!['}'] =~= old(out)@ + (
                seq!['{'] + render_members(ms@) + seq!['}']));
            }
        },
    }
}

fn push_items_from(items: &Vec<Value>, i: usize, out: &mut String)
    requires
        i <= items@.len(),
    ensures
        final(out)@ == old(out)@ + render_items(items@.skip(i as int)),
    decreases seq_value_size(items@.skip(i as int)), items@.len() - i, 0nat,
{
    let ghost s = items@.skip(i as int);
    if i == items.len() {
        proof {
            assert(old(out)@ + render_items(s) =~= old(out)@);
        }
        return ;
    }
    proof {
        lemma_seq_size_unfold(items@, i as int);
        lemma_value_size_pos(items@[i as int]);
        assert(s.drop_first() =~= items@.skip(i as int + 1));
        assert(s[0] == items@[i as int]);
    }
    push_value(&items[i], out);
    if i + 1 < items.len() {
        push_char(out, ',');
        push_items_from(items, i + 1, out);
        proof {
            assert(old(out)@ + render(items@[i as int]) + seq![','] + render_items(
                items@.skip(i as int + 1),
            ) =~= old(out)@ + (render(items@[i as int]) + seq![','] + render_items(
                items@.skip(i as int + 1),
            )));
        }
    }
}

fn push_members_from(ms: &Vec<(String, Value)>, i: usize, out: &mut String)
    requires
        i <= ms@.len(),
    ensures
        final(out)@ == old(out)@ + render_members(ms@.skip(i as int)),
    decreases seq_member_size(ms@.skip(i as int)), ms@.len() - i, 0nat,
{
    let ghost s = ms@.skip(i as int);
    if i == ms.len() {
        proof {
            assert(old(out)@ + render_members(s) =~= old(out)@);
        }
        return ;
    }
    proof {
        lemma_member_size_unfold(ms@, i as int);
        lemma_value_size_pos(ms@[i as int].1);
        assert(s.drop_first() =~= ms@.skip(i as int + 1));
        assert(s[0] == ms@[i as int]);
    }
    push_char(out, '"');
    push_escaped(ms[i].0.as_str(), out);
    push_char(out, '"');
    push_char(out, ':');
    push_value(&ms[i].1, out);
    proof {
        let m = ms@[i as int];
        assert(old(out)@ + seq!['"'] + escape_str(m.0@) + seq!['"'] + seq![':'] + render(m.1)
            =~= old(out)@ + render_member(m));
    }
    if i + 1 < ms.len() {
        push_char(out, ',');
        push_members_from(ms, i + 1, out);
        proof {
            assert(old(out)@ + render_member(ms@[i as int]) + seq![','] + render_members(
                ms@.skip(i as int + 1),
            ) =~= old(out)@ + (render_member(ms@[i as int]) + seq![','] + render_members(
                ms@.skip(i as int + 1),
            )));
        }
    }
}

/// The rendering of a value as a fresh string.
pub fn value_string(v: &Value) -> (s: String)
    ensures
        s@ == render(*v),
{
    let mut s = String::new();
    push_value(v, &mut s);
    s
}

} // verus!
