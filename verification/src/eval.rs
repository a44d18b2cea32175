//! The evaluator: a boolean mode that short-circuits on the first failing
//! keyword, and a diagnostic mode that collects every violation, both
//! proved to agree exactly with the declarative semantics.

use vstd::prelude::*;

verus! {

use vstd::string::StringExecFns;
use vstd::string::StrSliceExecFns;
use crate::value::Value;
use crate::value::value_size;
use crate::value::lookup_seq;
use crate::sem::SegModel;
use crate::sem::VErr;
use crate::sem::with_prefix;
use crate::sem::prefixed;
use crate::rx::pattern_valid;
use crate::rx::pattern_lang;
use crate::rx::regex_lang;

/// Relies on str equality from std: two string slices are equal exactly when
/// their character sequences are.
#[verifier::external_body]
pub fn str_eq(a: &str, b: &str) -> (r: bool)
    ensures
        r == (a@ == b@),
{
    a == b
}

/// The first member of `members` named `k`, given as a string slice.
pub fn lookup_str<'a>(members: &'a Vec<(String, Value)>, k: &str) -> (r: Option<&'a Value>)
    ensures
        match r {
            Some(v) => lookup_seq(members@, k@) == Some(*v),
            None => lookup_seq(members@, k@) is None,
        },
{
    let n = members.len();
    let mut i: usize = 0;
    proof {
        assert(members@.skip(0) =~= members@);
    }
    while i < n
        invariant
            i <= n == members@.len(),
            lookup_seq(members@, k@) == lookup_seq(members@.skip(i as int), k@),
        decreases n - i,
    {
        proof {
            assert(members@.skip(i as int).drop_first() =~= members@.skip(i as int + 1));
            assert(members@.skip(i as int)[0] == members@[i as int]);
        }
        if str_eq(members[i].0.as_str(), k) {
            return Some(&members[i].1);
        }
        i = i + 1;
    }
    None
}

/// The value of the keyword `name` in a schema object, if present.
pub fn kw_get<'s>(sdoc: &'s Value, name: &str) -> (r: Option<&'s Value>)
    ensures
        match r {
            Some(t) => crate::sem::kw(*sdoc, name@) == Some(*t),
            None => crate::sem::kw(*sdoc, name@) is None,
        },
{
    match sdoc {
        Value::Object(ms) => lookup_str(ms, name),
        _ => None,
    }
}

/// The value of the keyword `name` when it is a number.
pub fn kw_num_get(sdoc: &Value, name: &str) -> (r: Option<crate::num::Num>)
    ensures
        r == crate::sem::kw_num(*sdoc, name@),
{
    match kw_get(sdoc, name) {
        Some(Value::Number(n)) => Some(*n),
        _ => None,
    }
}

/// One segment of a reported path.
pub enum PathSeg {
    Key(String),
    Index(usize),
}

pub open spec fn seg_model(s: PathSeg) -> SegModel {
    match s {
        PathSeg::Key(k) => SegModel::Key(k@),
        PathSeg::Index(i) => SegModel::Index(i as int),
    }
}

pub open spec fn segs_model(s: Seq<PathSeg>) -> Seq<SegModel> {
    s.map_values(|x: PathSeg| seg_model(x))
}

/// A structured violation, as reported to callers.  The offending value is a
/// shared reference into the instance, not a copy.
pub struct ValidationError<'a> {
    pub keyword: String,
    pub instance_path: Vec<PathSeg>,
    pub schema_path: Vec<PathSeg>,
    pub message: String,
    pub value: &'a Value,
}

pub open spec fn err_model<'a>(e: ValidationError<'a>) -> VErr {
    VErr {
        keyword: e.keyword@,
        ipath: segs_model(e.instance_path@),
        spath: segs_model(e.schema_path@),
        msg: e.message@,
        value: *e.value,
    }
}

pub open spec fn errs_model<'a>(es: Seq<ValidationError<'a>>) -> Seq<VErr> {
    es.map_values(|e: ValidationError<'a>| err_model(e))
}

fn seg_clone(s: &PathSeg) -> (r: PathSeg)
    ensures
        r == *s,
{
    match s {
        PathSeg::Key(k) => PathSeg::Key(k.clone()),
        PathSeg::Index(i) => PathSeg::Index(*i),
    }
}

fn clone_segs(v: &Vec<PathSeg>) -> (r: Vec<PathSeg>)
    ensures
        r@ == v@,
{
    let mut r: Vec<PathSeg> = Vec::new();
    let mut i: usize = 0;
    while i < v.len()
        invariant
            i <= v@.len(),
            r@ == v@.take(i as int),
        decreases v@.len() - i,
    {
        r.push(seg_clone(&v[i]));
        proof {
            assert(v@.take(i as int + 1) =~= v@.take(i as int).push(v@[i as int]));
        }
        i = i + 1;
    }
    proof {
        assert(v@.take(v@.len() as int) =~= v@);
    }
    r
}

/// Moves `errs` onto the end of `acc`, prefixing each error's paths with
/// where its subschema stood.
fn push_prefixed<'a>(
    acc: &mut Vec<ValidationError<'a>>,
    errs: Vec<ValidationError<'a>>,
    ip: &Vec<PathSeg>,
    sp: &Vec<PathSeg>,
)
    ensures
        errs_model(final(acc)@) == errs_model(old(acc)@) + prefixed(
            errs_model(errs@),
            segs_model(ip@),
            segs_model(sp@),
        ),
{
    let ghost orig = errs@;
    let mut rest = errs;
    let ghost ipm = segs_model(ip@);
    let ghost spm = segs_model(sp@);
    proof {
        assert(orig.skip(0) =~= orig);
        assert(errs_model(orig).take(0) =~= Seq::<VErr>::empty());
        assert(errs_model(acc@) + Seq::<VErr>::empty().map_values(
            |e: VErr| with_prefix(ipm, spm, e),
        ) =~= errs_model(acc@));
    }
    let ghost mut k: int = 0;
    while rest.len() > 0
        invariant
            0 <= k <= orig.len(),
            rest@ == orig.skip(k),
            errs_model(acc@) == errs_model(old(acc)@) + prefixed(
                errs_model(orig).take(k),
                ipm,
                spm,
            ),
            ipm == segs_model(ip@),
            spm == segs_model(sp@),
        decreases rest@.len(),
    {
        proof {
            assert(orig.skip(k)[0] == orig[k]);
            assert(orig.skip(k).remove(0) =~= orig.skip(k + 1));
        }
        let e = rest.remove(0);
        let ValidationError { keyword, instance_path, schema_path, message, value } = e;
        let mut np = clone_segs(ip);
        let mut tmp_i = instance_path;
        np.append(&mut tmp_i);
        let mut nsp = clone_segs(sp);
        let mut tmp_s = schema_path;
        nsp.append(&mut tmp_s);
        let ne = ValidationError {
            keyword: keyword,
            instance_path: np,
            schema_path: nsp,
            message: message,
            value: value,
        };
        proof {
            assert(segs_model(ne.instance_path@) =~= ipm + segs_model(e.instance_path@));
            assert(segs_model(ne.schema_path@) =~= spm + segs_model(e.schema_path@));
            assert(err_model(ne) == with_prefix(ipm, spm, err_model(e)));
        }
        let ghost prev = acc@;
        acc.push(ne);
        proof {
            let x = with_prefix(ipm, spm, err_model(orig[k]));
            assert(errs_model(acc@) =~= errs_model(prev).push(err_model(ne)));
            assert(errs_model(orig).take(k + 1) =~= errs_model(orig).take(k).push(
                err_model(orig[k]),
            ));
            assert(prefixed(errs_model(orig).take(k + 1), ipm, spm) =~= prefixed(
                errs_model(orig).take(k),
                ipm,
                spm,
            ).push(x));
            assert(errs_model(prev).push(x) =~= errs_model(old(acc)@) + prefixed(
                errs_model(orig).take(k + 1),
                ipm,
                spm,
            ));
        }
        proof {
            k = k + 1;
        }
    }
    proof {
        assert(orig.skip(k).len() == 0);
        assert(k == orig.len());
        assert(errs_model(orig).take(k) =~= errs_model(orig));
    }
}

/// Moves `errs` onto the end of `acc` unchanged.
fn push_all<'a>(acc: &mut Vec<ValidationError<'a>>, errs: Vec<ValidationError<'a>>)
    ensures
        errs_model(final(acc)@) == errs_model(old(acc)@) + errs_model(errs@),
{
    let ghost orig = errs@;
    let mut rest = errs;
    let ghost mut k: int = 0;
    proof {
        assert(orig.skip(0) =~= orig);
        assert(errs_model(acc@) + errs_model(orig).take(0) =~= errs_model(acc@));
    }
    while rest.len() > 0
        invariant
            0 <= k <= orig.len(),
            rest@ == orig.skip(k),
            errs_model(acc@) == errs_model(old(acc)@) + errs_model(orig).take(k),
        decreases rest@.len(),
    {
        proof {
            assert(orig.skip(k)[0] == orig[k]);
            assert(orig.skip(k).remove(0) =~= orig.skip(k + 1));
        }
        let e = rest.remove(0);
        let ghost prev = acc@;
        acc.push(e);
        proof {
            assert(errs_model(acc@) =~= errs_model(prev).push(err_model(orig[k])));
            assert(errs_model(orig).take(k + 1) =~= errs_model(orig).take(k).push(
                err_model(orig[k]),
            ));
            assert(errs_model(prev).push(err_model(orig[k])) =~= errs_model(old(acc)@)
                + errs_model(orig).take(k + 1));
        }
        proof {
            k = k + 1;
        }
    }
    proof {
        assert(orig.skip(k).len() == 0);
        assert(k == orig.len());
        assert(errs_model(orig).take(k) =~= errs_model(orig));
    }
}

/// A single violation of the keyword `kw`, reported at the keyword itself.
fn mk_kw_err<'a>(kw: &str, msg: String, v: &'a Value) -> (r: Vec<ValidationError<'a>>)
    ensures
        errs_model(r@) == crate::sem::kw_err(kw@, msg@, *v),
{
    let mut sp: Vec<PathSeg> = Vec::new();
    sp.push(PathSeg::Key(String::from_str(kw)));
    let e = ValidationError {
        keyword: String::from_str(kw),
        instance_path: Vec::new(),
        schema_path: sp,
        message: msg,
        value: v,
    };
    let mut r: Vec<ValidationError<'a>> = Vec::new();
    r.push(e);
    proof {
        assert(segs_model(e.instance_path@) =~= Seq::<SegModel>::empty());
        assert(segs_model(e.schema_path@) =~= seq![SegModel::Key(kw@)]);
        assert(errs_model(r@) =~= crate::sem::kw_err(kw@, msg@, *v));
    }
    r
}

/// A pattern table entry pairs a pattern string with its compiled expression.
pub open spec fn table_ok(t: Seq<(String, regex::Regex)>) -> bool {
    forall|i: int|
        0 <= i < t.len() ==> pattern_valid(#[trigger] t[i].0@) && regex_lang(t[i].1)
            == pattern_lang(t[i].0@)
}

pub open spec fn in_table(t: Seq<(String, regex::Regex)>, p: Seq<char>) -> bool {
    exists|i: int| 0 <= i < t.len() && #[trigger] t[i].0@ == p
}

/// Every valid pattern string that can serve as a pattern anywhere inside `v`
/// has an entry in the table.  Patterns appear as the value of a `pattern`
/// member and as the member names of a `patternProperties` member.
pub open spec fn covers(t: Seq<(String, regex::Regex)>, v: Value) -> bool
    decreases value_size(v), 0nat, 0nat,
{
    match v {
        Value::Object(ms) => local_patterns_ok(t, ms@) && members_covered(t, ms@),
        Value::Array(items) => items_covered(t, items@),
        _ => true,
    }
}

pub open spec fn local_patterns_ok(t: Seq<(String, regex::Regex)>, ms: Seq<(String, Value)>) -> bool {
    &&& (match lookup_seq(ms, "pattern"@) {
        Some(Value::Str(p)) => pattern_valid(p@) ==> in_table(t, p@),
        _ => true,
    })
    &&& (match lookup_seq(ms, "patternProperties"@) {
        Some(Value::Object(pps)) => keys_in_table(t, pps@),
        _ => true,
    })
}

pub open spec fn keys_in_table(t: Seq<(String, regex::Regex)>, pps: Seq<(String, Value)>) -> bool
    decreases pps.len(),
{
    pps.len() == 0 || {
        &&& (pattern_valid(pps[0].0@) ==> in_table(t, pps[0].0@))
        &&& keys_in_table(t, pps.drop_first())
    }
}

pub open spec fn members_covered(t: Seq<(String, regex::Regex)>, ms: Seq<(String, Value)>) -> bool
    decreases crate::value::seq_member_size(ms), ms.len(), 1nat,
{
    ms.len() == 0 || (covers(t, ms[0].1) && members_covered(t, ms.drop_first()))
}

pub open spec fn items_covered(t: Seq<(String, regex::Regex)>, items: Seq<Value>) -> bool
    decreases crate::value::seq_value_size(items), items.len(), 1nat,
{
    items.len() == 0 || (covers(t, items[0]) && items_covered(t, items.drop_first()))
}

/// A member value of a covered object is covered.
pub proof fn lemma_lookup_covered(
    t: Seq<(String, regex::Regex)>,
    ms: Seq<(String, Value)>,
    k: Seq<char>,
    c: Value,
)
    requires
        members_covered(t, ms),
        lookup_seq(ms, k) == Some(c),
    ensures
        covers(t, c),
    decreases ms.len(),
{
    if ms.len() > 0 {
        if ms[0].0@ == k {
        } else {
            lemma_lookup_covered(t, ms.drop_first(), k, c);
        }
    }
}

/// An element of a covered array is covered.
pub proof fn lemma_item_covered(t: Seq<(String, regex::Regex)>, items: Seq<Value>, i: int)
    requires
        items_covered(t, items),
        0 <= i < items.len(),
    ensures
        covers(t, items[i]),
    decreases items.len(),
{
    if i > 0 {
        lemma_item_covered(t, items.drop_first(), i - 1);
    }
}

/// Any key of a covered `patternProperties` object is in the table when valid.
pub proof fn lemma_pp_key_covered(
    t: Seq<(String, regex::Regex)>,
    pps: Seq<(String, Value)>,
    i: int,
)
    requires
        keys_in_table(t, pps),
        0 <= i < pps.len(),
    ensures
        pattern_valid(pps[i].0@) ==> in_table(t, pps[i].0@),
    decreases pps.len(),
{
    if i > 0 {
        lemma_pp_key_covered(t, pps.drop_first(), i - 1);
    }
}

/// Pointer resolution from a covered value lands on a covered value.
pub proof fn lemma_resolve_covered(
    t: Seq<(String, regex::Regex)>,
    cur: Value,
    r: Seq<char>,
    i: nat,
    x: Value,
)
    requires
        covers(t, cur),
        crate::ptr::resolve_rel(cur, r, i) == Some(x),
    ensures
        covers(t, x),
    decreases (if i <= r.len() {
        r.len() - i
    } else {
        0
    }),
{
    if i >= r.len() {
    } else if r[i as int] != '/' {
    } else {
        let off = crate::ptr::sep_off(r, i + 1);
        let tok = r.subrange(i as int + 1, i as int + 1 + off);
        match crate::ptr::ptr_step(cur, tok) {
            Some(c) => {
                match crate::ptr::unescape(tok) {
                    Some(u) => {
                        match cur {
                            Value::Object(ms) => {
                                lemma_lookup_covered(t, ms@, u, c);
                            },
                            Value::Array(items) => {
                                match crate::ptr::parse_index(u) {
                                    Some(ix) => {
                                        lemma_item_covered(t, items@, ix);
                                    },
                                    None => {},
                                }
                            },
                            _ => {},
                        }
                    },
                    None => {},
                }
                lemma_resolve_covered(t, c, r, (i + 1 + off) as nat, x);
            },
            None => {},
        }
    }
}

/// The compiled expression for a pattern string, if the table has one.
pub(crate) fn find_pattern<'t>(table: &'t Vec<(String, regex::Regex)>, p: &String) -> (r: Option<
    &'t regex::Regex,
>)
    ensures
        match r {
            Some(re) => in_table(table@, p@) && exists|i: int|
                0 <= i < table@.len() && #[trigger] table@[i].0@ == p@ && table@[i].1 == *re,
            None => !in_table(table@, p@),
        },
{
    let n = table.len();
    let mut i: usize = 0;
    while i < n
        invariant
            i <= n == table@.len(),
            forall|q: int| 0 <= q < i ==> #[trigger] table@[q].0@ != p@,
        decreases n - i,
    {
        if table[i].0 == *p {
            return Some(&table[i].1);
        }
        i = i + 1;
    }
    None
}

/// `render(v)` followed by a fixed text.
fn msg_v(v: &Value, lit: &str) -> (s: String)
    ensures
        s@ == crate::render::render(*v) + lit@,
{
    let mut s = String::new();
    crate::render::push_value(v, &mut s);
    s.append(lit);
    s
}

/// `render(v)`, a fixed text, then a rendered number.
fn msg_v_num(v: &Value, lit: &str, m: &crate::num::Num) -> (s: String)
    ensures
        s@ == crate::render::render(*v) + lit@ + crate::render::num_render(*m),
{
    let mut s = String::new();
    crate::render::push_value(v, &mut s);
    s.append(lit);
    crate::render::push_num(m, &mut s);
    s
}

/// `render(v)`, a fixed text, a rendered number, then a closing text.
fn msg_v_num_t(v: &Value, lit: &str, m: &crate::num::Num, lit2: &str) -> (s: String)
    ensures
        s@ == crate::render::render(*v) + lit@ + crate::render::num_render(*m) + lit2@,
{
    let mut s = String::new();
    crate::render::push_value(v, &mut s);
    s.append(lit);
    crate::render::push_num(m, &mut s);
    s.append(lit2);
    s
}

/// Appends a quoted, escaped string.
pub(crate) fn push_quoted(p: &str, out: &mut String)
    ensures
        final(out)@ == old(out)@ + crate::sem::quoted(p@),
{
    crate::render::push_char(out, '"');
    crate::render::push_escaped(p, out);
    crate::render::push_char(out, '"');
    proof {
        assert(old(out)@ + seq!['"'] + crate::render::escape_str(p@) + seq!['"'] =~= old(out)@
            + crate::sem::quoted(p@));
    }
}

/// `render(v)`, a fixed text, then a quoted pattern.
fn msg_v_q(v: &Value, lit: &str, p: &str) -> (s: String)
    ensures
        s@ == crate::render::render(*v) + lit@ + crate::sem::quoted(p@),
{
    let mut s = String::new();
    crate::render::push_value(v, &mut s);
    s.append(lit);
    push_quoted(p, &mut s);
    s
}

/// A quoted string followed by a fixed text.
fn msg_q_t(k: &str, lit: &str) -> (s: String)
    ensures
        s@ == crate::sem::quoted(k@) + lit@,
{
    let mut s = String::new();
    push_quoted(k, &mut s);
    s.append(lit);
    s
}

/// A quoted string, a text, a second quoted string, and a closing text.
fn msg_q_t_q_t(k: &str, lit: &str, k2: &str, lit2: &str) -> (s: String)
    ensures
        s@ == crate::sem::quoted(k@) + lit@ + crate::sem::quoted(k2@) + lit2@,
{
    let mut s = String::new();
    push_quoted(k, &mut s);
    s.append(lit);
    push_quoted(k2, &mut s);
    s.append(lit2);
    s
}

/// A fixed text, a quoted string, and a closing text.
fn msg_t_q_t(lit: &str, k: &str, lit2: &str) -> (s: String)
    ensures
        s@ == lit@ + crate::sem::quoted(k@) + lit2@,
{
    let mut s = String::from_str(lit);
    push_quoted(k, &mut s);
    s.append(lit2);
    s
}

/// `render(v)`, a fixed text, then a rendered value.
fn msg_v_t_v(v: &Value, lit: &str, t: &Value) -> (s: String)
    ensures
        s@ == crate::render::render(*v) + lit@ + crate::render::render(*t),
{
    let mut s = String::new();
    crate::render::push_value(v, &mut s);
    s.append(lit);
    crate::render::push_value(t, &mut s);
    s
}

/// An empty error list.
fn no_errs<'a>() -> (r: Vec<ValidationError<'a>>)
    ensures
        errs_model(r@) == Seq::<VErr>::empty(),
{
    let r: Vec<ValidationError<'a>> = Vec::new();
    proof {
        assert(errs_model(r@) =~= Seq::<VErr>::empty());
    }
    r
}

fn type_name_ok_exec(s: &String, v: &Value) -> (r: bool)
    ensures
        r == crate::sem::type_name_ok(s@, *v),
{
    if str_eq(s.as_str(), "null") {
        matches!(v, Value::Null)
    } else if str_eq(s.as_str(), "boolean") {
        matches!(v, Value::Bool(_))
    } else if str_eq(s.as_str(), "object") {
        matches!(v, Value::Object(_))
    } else if str_eq(s.as_str(), "array") {
        matches!(v, Value::Array(_))
    } else if str_eq(s.as_str(), "string") {
        matches!(v, Value::Str(_))
    } else if str_eq(s.as_str(), "number") {
        matches!(v, Value::Number(_))
    } else if str_eq(s.as_str(), "integer") {
        match v {
            Value::Number(n) => crate::num::num_is_int_exec(n),
            _ => false,
        }
    } else {
        false
    }
}

fn any_type_ok_exec(names: &Vec<Value>, v: &Value, i: usize) -> (r: bool)
    requires
        i <= names@.len(),
    ensures
        r == crate::sem::any_type_ok(names@.skip(i as int), *v),
    decreases names@.len() - i,
{
    let ghost s = names@.skip(i as int);
    if i == names.len() {
        return false;
    }
    proof {
        assert(s.drop_first() =~= names@.skip(i as int + 1));
        assert(s[0] == names@[i as int]);
    }
    let head = match &names[i] {
        Value::Str(nm) => type_name_ok_exec(nm, v),
        _ => false,
    };
    if head {
        true
    } else {
        any_type_ok_exec(names, v, i + 1)
    }
}

fn eval_type<'a>(sdoc: &Value, v: &'a Value) -> (r: Vec<ValidationError<'a>>)
    ensures
        errs_model(r@) == crate::sem::kw_type_errs(*sdoc, *v),
{
    match kw_get(sdoc, "type") {
        Some(t) => {
            let ok = match t {
                Value::Str(s) => type_name_ok_exec(s, v),
                Value::Array(names) => {
                    proof {
                        assert(names@.skip(0) =~= names@);
                    }
                    any_type_ok_exec(names, v, 0)
                },
                _ => true,
            };
            if ok {
                no_errs()
            } else {
                let m = msg_v_t_v(v, " is not of type ", t);
                mk_kw_err("type", m, v)
            }
        },
        None => no_errs(),
    }
}

fn any_equiv_exec(v: &Value, cands: &Vec<Value>, i: usize) -> (r: bool)
    requires
        i <= cands@.len(),
    ensures
        r == crate::sem::any_equiv(*v, cands@.skip(i as int)),
    decreases cands@.len() - i,
{
    let ghost s = cands@.skip(i as int);
    if i == cands.len() {
        return false;
    }
    proof {
        assert(s.drop_first() =~= cands@.skip(i as int + 1));
        assert(s[0] == cands@[i as int]);
    }
    if crate::value::value_eq(v, &cands[i]) {
        true
    } else {
        any_equiv_exec(v, cands, i + 1)
    }
}

fn eval_enum<'a>(sdoc: &Value, v: &'a Value) -> (r: Vec<ValidationError<'a>>)
    ensures
        errs_model(r@) == crate::sem::kw_enum_errs(*sdoc, *v),
{
    match kw_get(sdoc, "enum") {
        Some(Value::Array(cands)) => {
            proof {
                assert(cands@.skip(0) =~= cands@);
            }
            if any_equiv_exec(v, cands, 0) {
                no_errs()
            } else {
                let m = msg_v(v, " is not one of the permitted values");
                mk_kw_err("enum", m, v)
            }
        },
        _ => no_errs(),
    }
}

fn eval_const<'a>(sdoc: &Value, v: &'a Value) -> (r: Vec<ValidationError<'a>>)
    ensures
        errs_model(r@) == crate::sem::kw_const_errs(*sdoc, *v),
{
    match kw_get(sdoc, "const") {
        Some(c) => {
            if crate::value::value_eq(v, c) {
                no_errs()
            } else {
                let m = msg_v(v, " does not equal the required constant");
                mk_kw_err("const", m, v)
            }
        },
        None => no_errs(),
    }
}

fn eval_minimum<'a>(sdoc: &Value, v: &'a Value) -> (r: Vec<ValidationError<'a>>)
    ensures
        errs_model(r@) == crate::sem::kw_minimum_errs(*sdoc, *v),
{
    match (kw_num_get(sdoc, "minimum"), v) {
        (Some(m), Value::Number(x)) => {
            let c = crate::num::num_cmp(x, &m);
            if matches!(c, crate::num::NumOrd::Less) {
                let s = msg_v_num(v, " is less than the minimum of ", &m);
                mk_kw_err("minimum", s, v)
            } else {
                no_errs()
            }
        },
        _ => no_errs(),
    }
}

fn eval_maximum<'a>(sdoc: &Value, v: &'a Value) -> (r: Vec<ValidationError<'a>>)
    ensures
        errs_model(r@) == crate::sem::kw_maximum_errs(*sdoc, *v),
{
    match (kw_num_get(sdoc, "maximum"), v) {
        (Some(m), Value::Number(x)) => {
            let c = crate::num::num_cmp(x, &m);
            if matches!(c, crate::num::NumOrd::Greater) {
                let s = msg_v_num(v, " is greater than the maximum of ", &m);
                mk_kw_err("maximum", s, v)
            } else {
                no_errs()
            }
        },
        _ => no_errs(),
    }
}

fn eval_excl_min<'a>(sdoc: &Value, v: &'a Value) -> (r: Vec<ValidationError<'a>>)
    ensures
        errs_model(r@) == crate::sem::kw_excl_min_errs(*sdoc, *v),
{
    match (kw_num_get(sdoc, "exclusiveMinimum"), v) {
        (Some(m), Value::Number(x)) => {
            let c = crate::num::num_cmp(x, &m);
            if matches!(c, crate::num::NumOrd::Greater) {
                no_errs()
            } else {
                let s = msg_v_num(v, " is not greater than the exclusive minimum of ", &m);
                mk_kw_err("exclusiveMinimum", s, v)
            }
        },
        _ => no_errs(),
    }
}

fn eval_excl_max<'a>(sdoc: &Value, v: &'a Value) -> (r: Vec<ValidationError<'a>>)
    ensures
        errs_model(r@) == crate::sem::kw_excl_max_errs(*sdoc, *v),
{
    match (kw_num_get(sdoc, "exclusiveMaximum"), v) {
        (Some(m), Value::Number(x)) => {
            let c = crate::num::num_cmp(x, &m);
            if matches!(c, crate::num::NumOrd::Less) {
                no_errs()
            } else {
                let s = msg_v_num(v, " is not less than the exclusive maximum of ", &m);
                mk_kw_err("exclusiveMaximum", s, v)
            }
        },
        _ => no_errs(),
    }
}

fn eval_multiple_of<'a>(sdoc: &Value, v: &'a Value) -> (r: Vec<ValidationError<'a>>)
    ensures
        errs_model(r@) == crate::sem::kw_multiple_of_errs(*sdoc, *v),
{
    match (kw_num_get(sdoc, "multipleOf"), v) {
        (Some(m), Value::Number(x)) => {
            if m.mant != 0 && !crate::num::num_multiple_of_exec(x, &m) {
                let s = msg_v_num(v, " is not a multiple of ", &m);
                mk_kw_err("multipleOf", s, v)
            } else {
                no_errs()
            }
        },
        _ => no_errs(),
    }
}

fn eval_min_length<'a>(sdoc: &Value, v: &'a Value) -> (r: Vec<ValidationError<'a>>)
    ensures
        errs_model(r@) == crate::sem::kw_min_length_errs(*sdoc, *v),
{
    match (kw_num_get(sdoc, "minLength"), v) {
        (Some(n), Value::Str(s)) => {
            let len = s.as_str().unicode_len();
            let fails = match crate::num::num_int_range(&n) {
                crate::num::NumInt::Exact(x) => (len as u64) < x,
                crate::num::NumInt::Above => true,
                crate::num::NumInt::Below => false,
                crate::num::NumInt::NotInt => false,
            };
            if fails {
                let m = msg_v_num_t(v, " is shorter than ", &n, " characters");
                mk_kw_err("minLength", m, v)
            } else {
                no_errs()
            }
        },
        _ => no_errs(),
    }
}

fn eval_max_length<'a>(sdoc: &Value, v: &'a Value) -> (r: Vec<ValidationError<'a>>)
    ensures
        errs_model(r@) == crate::sem::kw_max_length_errs(*sdoc, *v),
{
    match (kw_num_get(sdoc, "maxLength"), v) {
        (Some(n), Value::Str(s)) => {
            let len = s.as_str().unicode_len();
            let fails = match crate::num::num_int_range(&n) {
                crate::num::NumInt::Exact(x) => (len as u64) > x,
                crate::num::NumInt::Above => false,
                crate::num::NumInt::Below => true,
                crate::num::NumInt::NotInt => false,
            };
            if fails {
                let m = msg_v_num_t(v, " is longer than ", &n, " characters");
                mk_kw_err("maxLength", m, v)
            } else {
                no_errs()
            }
        },
        _ => no_errs(),
    }
}

fn eval_required_list<'a>(
    keys: &Vec<Value>,
    ms: &Vec<(String, Value)>,
    v: &'a Value,
    i: usize,
) -> (r: Vec<ValidationError<'a>>)
    requires
        i <= keys@.len(),
    ensures
        errs_model(r@) == crate::sem::required_errs(keys@.skip(i as int), ms@, *v),
    decreases keys@.len() - i,
{
    let ghost s = keys@.skip(i as int);
    if i == keys.len() {
        return no_errs();
    }
    proof {
        assert(s.drop_first() =~= keys@.skip(i as int + 1));
        assert(s[0] == keys@[i as int]);
    }
    let mut acc: Vec<ValidationError<'a>> = Vec::new();
    match &keys[i] {
        Value::Str(k) => {
            if lookup_str(ms, k.as_str()).is_none() {
                let m = msg_q_t(k.as_str(), " is a required property");
                let e = mk_kw_err("required", m, v);
                push_all(&mut acc, e);
            }
        },
        _ => {},
    }
    let rest = eval_required_list(keys, ms, v, i + 1);
    push_all(&mut acc, rest);
    proof {
        assert(errs_model(acc@) =~= crate::sem::required_errs(s, ms@, *v));
    }
    acc
}

fn eval_required<'a>(sdoc: &Value, v: &'a Value) -> (r: Vec<ValidationError<'a>>)
    ensures
        errs_model(r@) == crate::sem::kw_required_errs(*sdoc, *v),
{
    match (kw_get(sdoc, "required"), v) {
        (Some(Value::Array(keys)), Value::Object(ms)) => {
            proof {
                assert(keys@.skip(0) =~= keys@);
            }
            eval_required_list(keys, ms, v, 0)
        },
        _ => no_errs(),
    }
}

fn eval_dep_required_keys<'a>(
    keys: &Vec<Value>,
    trig: &String,
    ms: &Vec<(String, Value)>,
    v: &'a Value,
    i: usize,
) -> (r: Vec<ValidationError<'a>>)
    requires
        i <= keys@.len(),
    ensures
        errs_model(r@) == crate::sem::dep_required_keys(keys@.skip(i as int), trig@, ms@, *v),
    decreases keys@.len() - i,
{
    let ghost s = keys@.skip(i as int);
    if i == keys.len() {
        return no_errs();
    }
    proof {
        assert(s.drop_first() =~= keys@.skip(i as int + 1));
        assert(s[0] == keys@[i as int]);
    }
    let mut acc: Vec<ValidationError<'a>> = Vec::new();
    match &keys[i] {
        Value::Str(k) => {
            if lookup_str(ms, k.as_str()).is_none() {
                let m = msg_q_t_q_t(
                    k.as_str(),
                    " is a required property when ",
                    trig.as_str(),
                    " is present",
                );
                let e = mk_kw_err("dependentRequired", m, v);
                push_all(&mut acc, e);
            }
        },
        _ => {},
    }
    let rest = eval_dep_required_keys(keys, trig, ms, v, i + 1);
    push_all(&mut acc, rest);
    proof {
        assert(errs_model(acc@) =~= crate::sem::dep_required_keys(s, trig@, ms@, *v));
    }
    acc
}

fn eval_dep_required_list<'a>(
    deps: &Vec<(String, Value)>,
    ms: &Vec<(String, Value)>,
    v: &'a Value,
    i: usize,
) -> (r: Vec<ValidationError<'a>>)
    requires
        i <= deps@.len(),
    ensures
        errs_model(r@) == crate::sem::dep_required_errs(deps@.skip(i as int), ms@, *v),
    decreases deps@.len() - i,
{
    let ghost s = deps@.skip(i as int);
    if i == deps.len() {
        return no_errs();
    }
    proof {
        assert(s.drop_first() =~= deps@.skip(i as int + 1));
        assert(s[0] == deps@[i as int]);
    }
    let mut acc: Vec<ValidationError<'a>> = Vec::new();
    let trig_present = lookup_str(ms, deps[i].0.as_str()).is_some();
    match (&deps[i].1, trig_present) {
        (Value::Array(keys), true) => {
            proof {
                assert(keys@.skip(0) =~= keys@);
            }
            let e = eval_dep_required_keys(keys, &deps[i].0, ms, v, 0);
            push_all(&mut acc, e);
        },
        _ => {},
    }
    let rest = eval_dep_required_list(deps, ms, v, i + 1);
    push_all(&mut acc, rest);
    proof {
        assert(errs_model(acc@) =~= crate::sem::dep_required_errs(s, ms@, *v));
    }
    acc
}

fn eval_dep_required<'a>(sdoc: &Value, v: &'a Value) -> (r: Vec<ValidationError<'a>>)
    ensures
        errs_model(r@) == crate::sem::kw_dep_required_errs(*sdoc, *v),
{
    match (kw_get(sdoc, "dependentRequired"), v) {
        (Some(Value::Object(deps)), Value::Object(ms)) => {
            proof {
                assert(deps@.skip(0) =~= deps@);
            }
            eval_dep_required_list(deps, ms, v, 0)
        },
        _ => no_errs(),
    }
}

fn has_dup_exec(items: &Vec<Value>) -> (r: bool)
    ensures
        r == crate::sem::has_dup(items@),
{
    let n = items.len();
    let mut i: usize = 0;
    while i < n
        invariant
            i <= n == items@.len(),
            forall|a: int, b: int|
                0 <= a < b < items@.len() && a < i ==> !crate::value::value_equiv(
                    #[trigger] items@[a],
                    #[trigger] items@[b],
                ),
        decreases n - i,
    {
        let mut j: usize = i + 1;
        while j < n
            invariant
                i < j <= n == items@.len(),
                forall|b: int|
                    i < b < j ==> !crate::value::value_equiv(items@[i as int], #[trigger] items@[b]),
                forall|a: int, b: int|
                    0 <= a < b < items@.len() && a < i ==> !crate::value::value_equiv(
                        #[trigger] items@[a],
                        #[trigger] items@[b],
                    ),
            decreases n - j,
        {
            if crate::value::value_eq(&items[i], &items[j]) {
                return true;
            }
            j = j + 1;
        }
        i = i + 1;
    }
    false
}

fn eval_unique_items<'a>(sdoc: &Value, v: &'a Value) -> (r: Vec<ValidationError<'a>>)
    ensures
        errs_model(r@) == crate::sem::kw_unique_items_errs(*sdoc, *v),
{
    match (kw_get(sdoc, "uniqueItems"), v) {
        (Some(Value::Bool(true)), Value::Array(items)) => {
            if has_dup_exec(items) {
                let m = msg_v(v, " has non-unique elements");
                mk_kw_err("uniqueItems", m, v)
            } else {
                no_errs()
            }
        },
        _ => no_errs(),
    }
}

/// The `pattern` keyword: decided with the compiled expression from the
/// table; a valid pattern is always there when the schema is covered.
fn eval_pattern<'a>(
    table: &Vec<(String, regex::Regex)>,
    sdoc: &Value,
    v: &'a Value,
) -> (r: Vec<ValidationError<'a>>)
    requires
        table_ok(table@),
        covers(table@, *sdoc),
    ensures
        errs_model(r@) == crate::sem::kw_pattern_errs(*sdoc, *v),
{
    match (kw_get(sdoc, "pattern"), v) {
        (Some(Value::Str(p)), Value::Str(s)) => {
            match find_pattern(table, p) {
                Some(re) => {
                    proof {
                        assert(pattern_valid(p@) && regex_lang(*re) == pattern_lang(p@));
                    }
                    if crate::rx::regex_is_match(re, s.as_str()) {
                        no_errs()
                    } else {
                        let m = msg_v_q(v, " does not match pattern ", p.as_str());
                        mk_kw_err("pattern", m, v)
                    }
                },
                None => {
                    proof {
                        assert(!pattern_valid(p@));
                    }
                    let m = msg_q_t(p.as_str(), " is not a valid regular expression");
                    mk_kw_err("pattern", m, v)
                },
            }
        },
        _ => no_errs(),
    }
}

/// Any member value of a covered member list is covered.
pub proof fn lemma_member_covered(
    t: Seq<(String, regex::Regex)>,
    ms: Seq<(String, Value)>,
    i: int,
)
    requires
        members_covered(t, ms),
        0 <= i < ms.len(),
    ensures
        covers(t, ms[i].1),
    decreases ms.len(),
{
    if i > 0 {
        lemma_member_covered(t, ms.drop_first(), i - 1);
    }
}

/// All violations of a schema document by an instance value, in evaluation
/// order, exactly as the semantics states them.
pub fn eval_errors<'a>(
    root: &Value,
    table: &Vec<(String, regex::Regex)>,
    sdoc: &Value,
    v: &'a Value,
    fuel: u64,
) -> (r: Vec<ValidationError<'a>>)
    requires
        table_ok(table@),
        covers(table@, *root),
        covers(table@, *sdoc),
    ensures
        errs_model(r@) == crate::sem::sem_errors(*root, *sdoc, *v, fuel as nat),
    decreases fuel, 1nat, 0nat,
{
    if fuel == 0 {
        let e = ValidationError {
            keyword: String::from_str("depth"),
            instance_path: Vec::new(),
            schema_path: Vec::new(),
            message: String::from_str("the validation depth limit was exceeded"),
            value: v,
        };
        let mut r: Vec<ValidationError<'a>> = Vec::new();
        r.push(e);
        proof {
            assert(segs_model(e.instance_path@) =~= Seq::<SegModel>::empty());
            assert(segs_model(e.schema_path@) =~= Seq::<SegModel>::empty());
            assert(errs_model(r@) =~= crate::sem::sem_errors(*root, *sdoc, *v, fuel as nat));
        }
        return r;
    }
    match sdoc {
        Value::Bool(b) => {
            if *b {
                no_errs()
            } else {
                let m = {
                    let mut mm = String::from_str("False schema does not allow ");
                    crate::render::push_value(v, &mut mm);
                    mm
                };
                let e = ValidationError {
                    keyword: String::from_str("false"),
                    instance_path: Vec::new(),
                    schema_path: Vec::new(),
                    message: m,
                    value: v,
                };
                let mut r: Vec<ValidationError<'a>> = Vec::new();
                r.push(e);
                proof {
                    assert(segs_model(e.instance_path@) =~= Seq::<SegModel>::empty());
                    assert(segs_model(e.schema_path@) =~= Seq::<SegModel>::empty());
                    assert(errs_model(r@) =~= crate::sem::sem_errors(*root, *sdoc, *v, fuel as nat));
                }
                r
            }
        },
        Value::Object(_) => {
            let r = eval_obj(root, table, sdoc, v, fuel - 1);
            r
        },
        _ => no_errs(),
    }
}

/// Whether the instance is valid: boolean mode, which stops at the first
/// failing keyword instead of collecting every violation.
pub fn eval_valid(
    root: &Value,
    table: &Vec<(String, regex::Regex)>,
    sdoc: &Value,
    v: &Value,
    fuel: u64,
) -> (r: bool)
    requires
        table_ok(table@),
        covers(table@, *root),
        covers(table@, *sdoc),
    ensures
        r == crate::sem::sem_valid(*root, *sdoc, *v, fuel as nat),
    decreases fuel, 2nat, 0nat,
{
    if fuel == 0 {
        return false;
    }
    match sdoc {
        Value::Bool(b) => *b,
        Value::Object(_) => valid_obj(root, table, sdoc, v, fuel - 1),
        _ => true,
    }
}

#[verifier::rlimit(30)]
fn eval_obj<'a>(
    root: &Value,
    table: &Vec<(String, regex::Regex)>,
    sdoc: &Value,
    v: &'a Value,
    g: u64,
) -> (r: Vec<ValidationError<'a>>)
    requires
        table_ok(table@),
        covers(table@, *root),
        covers(table@, *sdoc),
    ensures
        errs_model(r@) == crate::sem::obj_errs(*root, *sdoc, *v, g as nat),
    decreases g, 23nat, 0nat,
{
    let mut acc: Vec<ValidationError<'a>> = Vec::new();
    proof {
        assert(errs_model(acc@) =~= Seq::<VErr>::empty());
    }
    let e = eval_type(sdoc, v);
    push_all(&mut acc, e);
    let e = eval_enum(sdoc, v);
    push_all(&mut acc, e);
    let e = eval_const(sdoc, v);
    push_all(&mut acc, e);
    let e = eval_minimum(sdoc, v);
    push_all(&mut acc, e);
    let e = eval_maximum(sdoc, v);
    push_all(&mut acc, e);
    let e = eval_excl_min(sdoc, v);
    push_all(&mut acc, e);
    let e = eval_excl_max(sdoc, v);
    push_all(&mut acc, e);
    let e = eval_multiple_of(sdoc, v);
    push_all(&mut acc, e);
    let e = eval_min_length(sdoc, v);
    push_all(&mut acc, e);
    let e = eval_max_length(sdoc, v);
    push_all(&mut acc, e);
    let e = eval_pattern(table, sdoc, v);
    push_all(&mut acc, e);
    let e = eval_required(sdoc, v);
    push_all(&mut acc, e);
    let e = eval_dep_required(sdoc, v);
    push_all(&mut acc, e);
    let e = eval_properties(root, table, sdoc, v, g);
    push_all(&mut acc, e);
    let e = eval_pp(root, table, sdoc, v, g);
    push_all(&mut acc, e);
    let e = eval_addl(root, table, sdoc, v, g);
    push_all(&mut acc, e);
    let e = eval_items(root, table, sdoc, v, g);
    push_all(&mut acc, e);
    let e = eval_contains(root, table, sdoc, v, g);
    push_all(&mut acc, e);
    let e = eval_unique_items(sdoc, v);
    push_all(&mut acc, e);
    let e = eval_all_of(root, table, sdoc, v, g);
    push_all(&mut acc, e);
    let e = eval_any_of(root, table, sdoc, v, g);
    push_all(&mut acc, e);
    let e = eval_one_of(root, table, sdoc, v, g);
    push_all(&mut acc, e);
    let e = eval_not(root, table, sdoc, v, g);
    push_all(&mut acc, e);
    let e = eval_ifte(root, table, sdoc, v, g);
    push_all(&mut acc, e);
    let e = eval_ref(root, table, sdoc, v, g);
    push_all(&mut acc, e);
    proof {
        assert(errs_model(acc@) =~= crate::sem::obj_errs(*root, *sdoc, *v, g as nat));
    }
    acc
}

fn eval_props_list<'a>(
    root: &Value,
    table: &Vec<(String, regex::Regex)>,
    props: &Vec<(String, Value)>,
    ms: &'a Vec<(String, Value)>,
    i: usize,
    g: u64,
) -> (r: Vec<ValidationError<'a>>)
    requires
        i <= props@.len(),
        table_ok(table@),
        covers(table@, *root),
        members_covered(table@, props@),
    ensures
        errs_model(r@) == crate::sem::props_errs(*root, props@.skip(i as int), ms@, g as nat),
    decreases g, 10nat, props@.len() - i,
{
    let ghost s = props@.skip(i as int);
    if i == props.len() {
        return no_errs();
    }
    proof {
        assert(s.drop_first() =~= props@.skip(i as int + 1));
        assert(s[0] == props@[i as int]);
        lemma_member_covered(table@, props@, i as int);
    }
    let mut acc: Vec<ValidationError<'a>> = Vec::new();
    match lookup_str(ms, props[i].0.as_str()) {
        Some(child) => {
            let sub_errs = eval_errors(root, table, &props[i].1, child, g);
            let mut ip: Vec<PathSeg> = Vec::new();
            ip.push(PathSeg::Key(props[i].0.clone()));
            let mut sp: Vec<PathSeg> = Vec::new();
            sp.push(PathSeg::Key(String::from_str("properties")));
            sp.push(PathSeg::Key(props[i].0.clone()));
            proof {
                assert(segs_model(ip@) =~= seq![SegModel::Key(props@[i as int].0@)]);
                assert(segs_model(sp@) =~= seq![
                    SegModel::Key("properties"@),
                    SegModel::Key(props@[i as int].0@),
                ]);
            }
            push_prefixed(&mut acc, sub_errs, &ip, &sp);
        },
        None => {},
    }
    let rest = eval_props_list(root, table, props, ms, i + 1, g);
    push_all(&mut acc, rest);
    proof {
        assert(errs_model(acc@) =~= crate::sem::props_errs(*root, s, ms@, g as nat));
    }
    acc
}

fn eval_properties<'a>(
    root: &Value,
    table: &Vec<(String, regex::Regex)>,
    sdoc: &Value,
    v: &'a Value,
    g: u64,
) -> (r: Vec<ValidationError<'a>>)
    requires
        table_ok(table@),
        covers(table@, *root),
        covers(table@, *sdoc),
    ensures
        errs_model(r@) == crate::sem::kw_properties_errs(*root, *sdoc, *v, g as nat),
    decreases g, 22nat, 0nat,
{
    match (kw_get(sdoc, "properties"), v) {
        (Some(Value::Object(props)), Value::Object(ms)) => {
            proof {
                assert(props@.skip(0) =~= props@);
                match sdoc {
                    Value::Object(sms) => {
                        lemma_lookup_covered(
                            table@,
                            sms@,
                            "properties"@,
                            Value::Object(*props),
                        );
                    },
                    _ => {},
                }
            }
            eval_props_list(root, table, props, ms, 0, g)
        },
        _ => no_errs(),
    }
}

fn eval_pp_one<'a>(
    root: &Value,
    table: &Vec<(String, regex::Regex)>,
    pat: &String,
    re: &regex::Regex,
    sub: &Value,
    ms: &'a Vec<(String, Value)>,
    i: usize,
    g: u64,
) -> (r: Vec<ValidationError<'a>>)
    requires
        i <= ms@.len(),
        table_ok(table@),
        covers(table@, *root),
        covers(table@, *sub),
        regex_lang(*re) == pattern_lang(pat@),
    ensures
        errs_model(r@) == crate::sem::pp_one_errs(*root, pat@, *sub, ms@.skip(i as int), g as nat),
    decreases g, 9nat, ms@.len() - i,
{
    let ghost s = ms@.skip(i as int);
    if i == ms.len() {
        return no_errs();
    }
    proof {
        assert(s.drop_first() =~= ms@.skip(i as int + 1));
        assert(s[0] == ms@[i as int]);
    }
    let mut acc: Vec<ValidationError<'a>> = Vec::new();
    if crate::rx::regex_is_match(re, ms[i].0.as_str()) {
        let sub_errs = eval_errors(root, table, sub, &ms[i].1, g);
        let mut ip: Vec<PathSeg> = Vec::new();
        ip.push(PathSeg::Key(ms[i].0.clone()));
        let mut sp: Vec<PathSeg> = Vec::new();
        sp.push(PathSeg::Key(String::from_str("patternProperties")));
        sp.push(PathSeg::Key(pat.clone()));
        proof {
            assert(segs_model(ip@) =~= seq![SegModel::Key(ms@[i as int].0@)]);
            assert(segs_model(sp@) =~= seq![
                SegModel::Key("patternProperties"@),
                SegModel::Key(pat@),
            ]);
        }
        push_prefixed(&mut acc, sub_errs, &ip, &sp);
    }
    let rest = eval_pp_one(root, table, pat, re, sub, ms, i + 1, g);
    push_all(&mut acc, rest);
    proof {
        assert(errs_model(acc@) =~= crate::sem::pp_one_errs(*root, pat@, *sub, s, g as nat));
    }
    acc
}

fn eval_pp_list<'a>(
    root: &Value,
    table: &Vec<(String, regex::Regex)>,
    pps: &Vec<(String, Value)>,
    ms: &'a Vec<(String, Value)>,
    v: &'a Value,
    i: usize,
    g: u64,
) -> (r: Vec<ValidationError<'a>>)
    requires
        i <= pps@.len(),
        table_ok(table@),
        covers(table@, *root),
        members_covered(table@, pps@),
        keys_in_table(table@, pps@),
    ensures
        errs_model(r@) == crate::sem::pp_errs(*root, pps@.skip(i as int), ms@, *v, g as nat),
    decreases g, 10nat, pps@.len() - i,
{
    let ghost s = pps@.skip(i as int);
    if i == pps.len() {
        return no_errs();
    }
    proof {
        assert(s.drop_first() =~= pps@.skip(i as int + 1));
        assert(s[0] == pps@[i as int]);
        lemma_member_covered(table@, pps@, i as int);
        lemma_pp_key_covered(table@, pps@, i as int);
    }
    let mut acc: Vec<ValidationError<'a>> = Vec::new();
    match find_pattern(table, &pps[i].0) {
        Some(re) => {
            proof {
                assert(regex_lang(*re) == pattern_lang(pps@[i as int].0@));
                assert(pps@.skip(0) == pps@);
            }
            proof {
                assert(ms@.skip(0) =~= ms@);
            }
            let e = eval_pp_one(root, table, &pps[i].0, re, &pps[i].1, ms, 0, g);
            push_all(&mut acc, e);
        },
        None => {
            proof {
                assert(!pattern_valid(pps@[i as int].0@));
            }
            let m = msg_q_t(pps[i].0.as_str(), " is not a valid regular expression");
            let mut sp: Vec<PathSeg> = Vec::new();
            sp.push(PathSeg::Key(String::from_str("patternProperties")));
            sp.push(PathSeg::Key(pps[i].0.clone()));
            let e = ValidationError {
                keyword: String::from_str("patternProperties"),
                instance_path: Vec::new(),
                schema_path: sp,
                message: m,
                value: v,
            };
            proof {
                assert(segs_model(e.instance_path@) =~= Seq::<SegModel>::empty());
                assert(segs_model(e.schema_path@) =~= seq![
                    SegModel::Key("patternProperties"@),
                    SegModel::Key(pps@[i as int].0@),
                ]);
            }
            acc.push(e);
        },
    }
    let rest = eval_pp_list(root, table, pps, ms, v, i + 1, g);
    push_all(&mut acc, rest);
    proof {
        assert(errs_model(acc@) =~= crate::sem::pp_errs(*root, s, ms@, *v, g as nat));
    }
    acc
}

fn eval_pp<'a>(
    root: &Value,
    table: &Vec<(String, regex::Regex)>,
    sdoc: &Value,
    v: &'a Value,
    g: u64,
) -> (r: Vec<ValidationError<'a>>)
    requires
        table_ok(table@),
        covers(table@, *root),
        covers(table@, *sdoc),
    ensures
        errs_model(r@) == crate::sem::kw_pp_errs(*root, *sdoc, *v, g as nat),
    decreases g, 22nat, 0nat,
{
    match (kw_get(sdoc, "patternProperties"), v) {
        (Some(Value::Object(pps)), Value::Object(ms)) => {
            proof {
                assert(pps@.skip(0) =~= pps@);
                match sdoc {
                    Value::Object(sms) => {
                        lemma_lookup_covered(
                            table@,
                            sms@,
                            "patternProperties"@,
                            Value::Object(*pps),
                        );
                    },
                    _ => {},
                }
            }
            eval_pp_list(root, table, pps, ms, v, 0, g)
        },
        _ => no_errs(),
    }
}

fn any_pp_match_exec(
    table: &Vec<(String, regex::Regex)>,
    pps: &Vec<(String, Value)>,
    k: &String,
    i: usize,
) -> (r: bool)
    requires
        i <= pps@.len(),
        table_ok(table@),
        keys_in_table(table@, pps@),
    ensures
        r == crate::sem::any_pp_match(pps@.skip(i as int), k@),
    decreases pps@.len() - i,
{
    let ghost s = pps@.skip(i as int);
    if i == pps.len() {
        return false;
    }
    proof {
        assert(s.drop_first() =~= pps@.skip(i as int + 1));
        assert(s[0] == pps@[i as int]);
        lemma_pp_key_covered(table@, pps@, i as int);
    }
    let head = match find_pattern(table, &pps[i].0) {
        Some(re) => crate::rx::regex_is_match(re, k.as_str()),
        None => false,
    };
    if head {
        true
    } else {
        any_pp_match_exec(table, pps, k, i + 1)
    }
}

fn eval_addl_list<'a>(
    root: &Value,
    table: &Vec<(String, regex::Regex)>,
    sub: &Value,
    props: &Vec<(String, Value)>,
    pps: &Vec<(String, Value)>,
    ms: &'a Vec<(String, Value)>,
    i: usize,
    g: u64,
) -> (r: Vec<ValidationError<'a>>)
    requires
        i <= ms@.len(),
        table_ok(table@),
        covers(table@, *root),
        covers(table@, *sub),
        keys_in_table(table@, pps@),
    ensures
        errs_model(r@) == crate::sem::addl_errs(
            *root,
            *sub,
            props@,
            pps@,
            ms@.skip(i as int),
            g as nat,
        ),
    decreases g, 10nat, ms@.len() - i,
{
    let ghost s = ms@.skip(i as int);
    if i == ms.len() {
        return no_errs();
    }
    proof {
        assert(s.drop_first() =~= ms@.skip(i as int + 1));
        assert(s[0] == ms@[i as int]);
        assert(pps@.skip(0) =~= pps@);
    }
    let mut acc: Vec<ValidationError<'a>> = Vec::new();
    let named = lookup_str(props, ms[i].0.as_str()).is_some();
    if !named && !any_pp_match_exec(table, pps, &ms[i].0, 0) {
        let sub_errs = eval_errors(root, table, sub, &ms[i].1, g);
        let mut ip: Vec<PathSeg> = Vec::new();
        ip.push(PathSeg::Key(ms[i].0.clone()));
        let mut sp: Vec<PathSeg> = Vec::new();
        sp.push(PathSeg::Key(String::from_str("additionalProperties")));
        proof {
            assert(segs_model(ip@) =~= seq![SegModel::Key(ms@[i as int].0@)]);
            assert(segs_model(sp@) =~= seq![SegModel::Key("additionalProperties"@)]);
        }
        push_prefixed(&mut acc, sub_errs, &ip, &sp);
    }
    let rest = eval_addl_list(root, table, sub, props, pps, ms, i + 1, g);
    push_all(&mut acc, rest);
    proof {
        assert(errs_model(acc@) =~= crate::sem::addl_errs(*root, *sub, props@, pps@, s, g as nat));
    }
    acc
}

fn eval_addl<'a>(
    root: &Value,
    table: &Vec<(String, regex::Regex)>,
    sdoc: &Value,
    v: &'a Value,
    g: u64,
) -> (r: Vec<ValidationError<'a>>)
    requires
        table_ok(table@),
        covers(table@, *root),
        covers(table@, *sdoc),
    ensures
        errs_model(r@) == crate::sem::kw_addl_errs(*root, *sdoc, *v, g as nat),
    decreases g, 22nat, 0nat,
{
    let empty_members: Vec<(String, Value)> = Vec::new();
    match (kw_get(sdoc, "additionalProperties"), v) {
        (Some(sub), Value::Object(ms)) => {
            let props: &Vec<(String, Value)> = match kw_get(sdoc, "properties") {
                Some(Value::Object(props)) => props,
                _ => &empty_members,
            };
            let pps: &Vec<(String, Value)> = match kw_get(sdoc, "patternProperties") {
                Some(Value::Object(pps)) => pps,
                _ => &empty_members,
            };
            proof {
                assert(props@ =~= crate::sem::props_of(*sdoc));
                assert(pps@ =~= crate::sem::pp_of(*sdoc));
                assert(ms@.skip(0) =~= ms@);
                match sdoc {
                    Value::Object(sms) => {
                        lemma_lookup_covered(table@, sms@, "additionalProperties"@, *sub);
                        assert(keys_in_table(table@, pps@));
                    },
                    _ => {},
                }
            }
            eval_addl_list(root, table, sub, props, pps, ms, 0, g)
        },
        _ => no_errs(),
    }
}

fn eval_items_list<'a>(
    root: &Value,
    table: &Vec<(String, regex::Regex)>,
    sub: &Value,
    items: &'a Vec<Value>,
    i: usize,
    g: u64,
) -> (r: Vec<ValidationError<'a>>)
    requires
        i <= items@.len(),
        table_ok(table@),
        covers(table@, *root),
        covers(table@, *sub),
    ensures
        errs_model(r@) == crate::sem::items_errs(*root, *sub, items@, i as int, g as nat),
    decreases g, 10nat, items@.len() - i,
{
    if i == items.len() {
        return no_errs();
    }
    let mut acc: Vec<ValidationError<'a>> = Vec::new();
    let sub_errs = eval_errors(root, table, sub, &items[i], g);
    let mut ip: Vec<PathSeg> = Vec::new();
    ip.push(PathSeg::Index(i));
    let mut sp: Vec<PathSeg> = Vec::new();
    sp.push(PathSeg::Key(String::from_str("items")));
    proof {
        assert(segs_model(ip@) =~= seq![SegModel::Index(i as int)]);
        assert(segs_model(sp@) =~= seq![SegModel::Key("items"@)]);
    }
    push_prefixed(&mut acc, sub_errs, &ip, &sp);
    let rest = eval_items_list(root, table, sub, items, i + 1, g);
    push_all(&mut acc, rest);
    proof {
        assert(errs_model(acc@) =~= crate::sem::items_errs(*root, *sub, items@, i as int, g as nat));
    }
    acc
}

fn eval_items<'a>(
    root: &Value,
    table: &Vec<(String, regex::Regex)>,
    sdoc: &Value,
    v: &'a Value,
    g: u64,
) -> (r: Vec<ValidationError<'a>>)
    requires
        table_ok(table@),
        covers(table@, *root),
        covers(table@, *sdoc),
    ensures
        errs_model(r@) == crate::sem::kw_items_errs(*root, *sdoc, *v, g as nat),
    decreases g, 22nat, 0nat,
{
    match (kw_get(sdoc, "items"), v) {
        (Some(sub), Value::Array(items)) => {
            proof {
                match sdoc {
                    Value::Object(sms) => {
                        lemma_lookup_covered(table@, sms@, "items"@, *sub);
                    },
                    _ => {},
                }
            }
            eval_items_list(root, table, sub, items, 0, g)
        },
        _ => no_errs(),
    }
}

fn any_item_valid_exec(
    root: &Value,
    table: &Vec<(String, regex::Regex)>,
    sub: &Value,
    items: &Vec<Value>,
    i: usize,
    g: u64,
) -> (r: bool)
    requires
        i <= items@.len(),
        table_ok(table@),
        covers(table@, *root),
        covers(table@, *sub),
    ensures
        r == crate::sem::any_item_valid(*root, *sub, items@.skip(i as int), g as nat),
    decreases g, 10nat, items@.len() - i,
{
    let ghost s = items@.skip(i as int);
    if i == items.len() {
        return false;
    }
    proof {
        assert(s.drop_first() =~= items@.skip(i as int + 1));
        assert(s[0] == items@[i as int]);
    }
    if eval_valid(root, table, sub, &items[i], g) {
        true
    } else {
        any_item_valid_exec(root, table, sub, items, i + 1, g)
    }
}

fn eval_contains<'a>(
    root: &Value,
    table: &Vec<(String, regex::Regex)>,
    sdoc: &Value,
    v: &'a Value,
    g: u64,
) -> (r: Vec<ValidationError<'a>>)
    requires
        table_ok(table@),
        covers(table@, *root),
        covers(table@, *sdoc),
    ensures
        errs_model(r@) == crate::sem::kw_contains_errs(*root, *sdoc, *v, g as nat),
    decreases g, 22nat, 0nat,
{
    match (kw_get(sdoc, "contains"), v) {
        (Some(sub), Value::Array(items)) => {
            proof {
                assert(items@.skip(0) =~= items@);
                match sdoc {
                    Value::Object(sms) => {
                        lemma_lookup_covered(table@, sms@, "contains"@, *sub);
                    },
                    _ => {},
                }
            }
            if any_item_valid_exec(root, table, sub, items, 0, g) {
                no_errs()
            } else {
                let m = msg_v(v, " does not contain an item matching the given schema");
                mk_kw_err("contains", m, v)
            }
        },
        _ => no_errs(),
    }
}

fn eval_all_of_list<'a>(
    root: &Value,
    table: &Vec<(String, regex::Regex)>,
    subs: &Vec<Value>,
    v: &'a Value,
    i: usize,
    g: u64,
) -> (r: Vec<ValidationError<'a>>)
    requires
        i <= subs@.len(),
        table_ok(table@),
        covers(table@, *root),
        items_covered(table@, subs@),
    ensures
        errs_model(r@) == crate::sem::all_of_errs(*root, subs@, *v, i as int, g as nat),
    decreases g, 10nat, subs@.len() - i,
{
    if i == subs.len() {
        return no_errs();
    }
    proof {
        lemma_item_covered(table@, subs@, i as int);
    }
    let mut acc: Vec<ValidationError<'a>> = Vec::new();
    let sub_errs = eval_errors(root, table, &subs[i], v, g);
    let ip: Vec<PathSeg> = Vec::new();
    let mut sp: Vec<PathSeg> = Vec::new();
    sp.push(PathSeg::Key(String::from_str("allOf")));
    sp.push(PathSeg::Index(i));
    proof {
        assert(segs_model(ip@) =~= Seq::<SegModel>::empty());
        assert(segs_model(sp@) =~= seq![SegModel::Key("allOf"@), SegModel::Index(i as int)]);
    }
    push_prefixed(&mut acc, sub_errs, &ip, &sp);
    let rest = eval_all_of_list(root, table, subs, v, i + 1, g);
    push_all(&mut acc, rest);
    proof {
        assert(errs_model(acc@) =~= crate::sem::all_of_errs(*root, subs@, *v, i as int, g as nat));
    }
    acc
}

fn eval_all_of<'a>(
    root: &Value,
    table: &Vec<(String, regex::Regex)>,
    sdoc: &Value,
    v: &'a Value,
    g: u64,
) -> (r: Vec<ValidationError<'a>>)
    requires
        table_ok(table@),
        covers(table@, *root),
        covers(table@, *sdoc),
    ensures
        errs_model(r@) == crate::sem::kw_all_of_errs(*root, *sdoc, *v, g as nat),
    decreases g, 22nat, 0nat,
{
    match kw_get(sdoc, "allOf") {
        Some(Value::Array(subs)) => {
            proof {
                match sdoc {
                    Value::Object(sms) => {
                        lemma_lookup_covered(table@, sms@, "allOf"@, Value::Array(*subs));
                    },
                    _ => {},
                }
            }
            eval_all_of_list(root, table, subs, v, 0, g)
        },
        _ => no_errs(),
    }
}

fn any_sub_valid_exec(
    root: &Value,
    table: &Vec<(String, regex::Regex)>,
    subs: &Vec<Value>,
    v: &Value,
    i: usize,
    g: u64,
) -> (r: bool)
    requires
        i <= subs@.len(),
        table_ok(table@),
        covers(table@, *root),
        items_covered(table@, subs@),
    ensures
        r == crate::sem::any_sub_valid(*root, subs@.skip(i as int), *v, g as nat),
    decreases g, 10nat, subs@.len() - i,
{
    let ghost s = subs@.skip(i as int);
    if i == subs.len() {
        return false;
    }
    proof {
        assert(s.drop_first() =~= subs@.skip(i as int + 1));
        assert(s[0] == subs@[i as int]);
        lemma_item_covered(table@, subs@, i as int);
    }
    if eval_valid(root, table, &subs[i], v, g) {
        true
    } else {
        any_sub_valid_exec(root, table, subs, v, i + 1, g)
    }
}

fn eval_any_of<'a>(
    root: &Value,
    table: &Vec<(String, regex::Regex)>,
    sdoc: &Value,
    v: &'a Value,
    g: u64,
) -> (r: Vec<ValidationError<'a>>)
    requires
        table_ok(table@),
        covers(table@, *root),
        covers(table@, *sdoc),
    ensures
        errs_model(r@) == crate::sem::kw_any_of_errs(*root, *sdoc, *v, g as nat),
    decreases g, 22nat, 0nat,
{
    match kw_get(sdoc, "anyOf") {
        Some(Value::Array(subs)) => {
            proof {
                assert(subs@.skip(0) =~= subs@);
                match sdoc {
                    Value::Object(sms) => {
                        lemma_lookup_covered(table@, sms@, "anyOf"@, Value::Array(*subs));
                    },
                    _ => {},
                }
            }
            if any_sub_valid_exec(root, table, subs, v, 0, g) {
                no_errs()
            } else {
                let m = msg_v(v, " is not valid under any of the given schemas");
                mk_kw_err("anyOf", m, v)
            }
        },
        _ => no_errs(),
    }
}

fn count_valid_exec(
    root: &Value,
    table: &Vec<(String, regex::Regex)>,
    subs: &Vec<Value>,
    v: &Value,
    i: usize,
    g: u64,
) -> (r: u64)
    requires
        i <= subs@.len(),
        subs@.len() <= u64::MAX,
        table_ok(table@),
        covers(table@, *root),
        items_covered(table@, subs@),
    ensures
        r == crate::sem::count_valid(*root, subs@.skip(i as int), *v, g as nat),
        r <= subs@.len() - i,
    decreases g, 10nat, subs@.len() - i,
{
    let ghost s = subs@.skip(i as int);
    if i == subs.len() {
        return 0;
    }
    proof {
        assert(s.drop_first() =~= subs@.skip(i as int + 1));
        assert(s[0] == subs@[i as int]);
        lemma_item_covered(table@, subs@, i as int);
    }
    let head: u64 = if eval_valid(root, table, &subs[i], v, g) {
        1
    } else {
        0
    };
    let rest = count_valid_exec(root, table, subs, v, i + 1, g);
    head + rest
}

fn eval_one_of<'a>(
    root: &Value,
    table: &Vec<(String, regex::Regex)>,
    sdoc: &Value,
    v: &'a Value,
    g: u64,
) -> (r: Vec<ValidationError<'a>>)
    requires
        table_ok(table@),
        covers(table@, *root),
        covers(table@, *sdoc),
    ensures
        errs_model(r@) == crate::sem::kw_one_of_errs(*root, *sdoc, *v, g as nat),
    decreases g, 22nat, 0nat,
{
    match kw_get(sdoc, "oneOf") {
        Some(Value::Array(subs)) => {
            proof {
                assert(subs@.skip(0) =~= subs@);
                match sdoc {
                    Value::Object(sms) => {
                        lemma_lookup_covered(table@, sms@, "oneOf"@, Value::Array(*subs));
                    },
                    _ => {},
                }
            }
            let ln = subs.len();
            proof {
                assert(subs@.len() == ln);
            }
            let c = count_valid_exec(root, table, subs, v, 0, g);
            if c == 1 {
                no_errs()
            } else {
                let m = msg_v(v, " is not valid under exactly one of the given schemas");
                mk_kw_err("oneOf", m, v)
            }
        },
        _ => no_errs(),
    }
}

fn eval_not<'a>(
    root: &Value,
    table: &Vec<(String, regex::Regex)>,
    sdoc: &Value,
    v: &'a Value,
    g: u64,
) -> (r: Vec<ValidationError<'a>>)
    requires
        table_ok(table@),
        covers(table@, *root),
        covers(table@, *sdoc),
    ensures
        errs_model(r@) == crate::sem::kw_not_errs(*root, *sdoc, *v, g as nat),
    decreases g, 22nat, 0nat,
{
    match kw_get(sdoc, "not") {
        Some(sub) => {
            proof {
                match sdoc {
                    Value::Object(sms) => {
                        lemma_lookup_covered(table@, sms@, "not"@, *sub);
                    },
                    _ => {},
                }
            }
            if eval_valid(root, table, sub, v, g) {
                let m = msg_v(v, " must not be valid under the given schema");
                mk_kw_err("not", m, v)
            } else {
                no_errs()
            }
        },
        None => no_errs(),
    }
}

fn eval_ifte<'a>(
    root: &Value,
    table: &Vec<(String, regex::Regex)>,
    sdoc: &Value,
    v: &'a Value,
    g: u64,
) -> (r: Vec<ValidationError<'a>>)
    requires
        table_ok(table@),
        covers(table@, *root),
        covers(table@, *sdoc),
    ensures
        errs_model(r@) == crate::sem::kw_ifte_errs(*root, *sdoc, *v, g as nat),
    decreases g, 22nat, 0nat,
{
    match kw_get(sdoc, "if") {
        Some(c) => {
            proof {
                match sdoc {
                    Value::Object(sms) => {
                        lemma_lookup_covered(table@, sms@, "if"@, *c);
                    },
                    _ => {},
                }
            }
            let branch: &str = if eval_valid(root, table, c, v, g) {
                "then"
            } else {
                "else"
            };
            match kw_get(sdoc, branch) {
                Some(t) => {
                    proof {
                        match sdoc {
                            Value::Object(sms) => {
                                lemma_lookup_covered(table@, sms@, branch@, *t);
                            },
                            _ => {},
                        }
                    }
                    let sub_errs = eval_errors(root, table, t, v, g);
                    let ip: Vec<PathSeg> = Vec::new();
                    let mut sp: Vec<PathSeg> = Vec::new();
                    sp.push(PathSeg::Key(String::from_str(branch)));
                    let mut acc: Vec<ValidationError<'a>> = Vec::new();
                    proof {
                        assert(segs_model(ip@) =~= Seq::<SegModel>::empty());
                        assert(segs_model(sp@) =~= seq![SegModel::Key(branch@)]);
                        assert(errs_model(acc@) =~= Seq::<VErr>::empty());
                    }
                    push_prefixed(&mut acc, sub_errs, &ip, &sp);
                    proof {
                        assert(errs_model(acc@) =~= crate::sem::kw_ifte_errs(
                            *root,
                            *sdoc,
                            *v,
                            g as nat,
                        ));
                    }
                    acc
                },
                None => no_errs(),
            }
        },
        None => no_errs(),
    }
}

fn eval_ref<'a>(
    root: &Value,
    table: &Vec<(String, regex::Regex)>,
    sdoc: &Value,
    v: &'a Value,
    g: u64,
) -> (r: Vec<ValidationError<'a>>)
    requires
        table_ok(table@),
        covers(table@, *root),
        covers(table@, *sdoc),
    ensures
        errs_model(r@) == crate::sem::kw_ref_errs(*root, *sdoc, *v, g as nat),
    decreases g, 22nat, 0nat,
{
    match kw_get(sdoc, "$ref") {
        Some(Value::Str(rp)) => {
            match crate::ptr::resolve_pointer(root, rp.as_str()) {
                Some(t) => {
                    proof {
                        lemma_resolve_covered(table@, *root, rp@, 1, *t);
                    }
                    eval_errors(root, table, t, v, g)
                },
                None => {
                    let m = msg_t_q_t("the reference ", rp.as_str(), " cannot be resolved");
                    mk_kw_err("$ref", m, v)
                },
            }
        },
        _ => no_errs(),
    }
}

/// A path segment's token as it appears in a JSON-Pointer rendering.
pub open spec fn ptr_escape(k: Seq<char>) -> Seq<char>
    decreases k.len(),
{
    if k.len() == 0 {
        Seq::empty()
    } else {
        (if k[0] == '~' {
            seq!['~', '0']
        } else if k[0] == '/' {
            seq!['~', '1']
        } else {
            seq![k[0]]
        }) + ptr_escape(k.drop_first())
    }
}

pub open spec fn seg_ptr(s: SegModel) -> Seq<char> {
    match s {
        SegModel::Key(k) => seq!['/'] + ptr_escape(k),
        SegModel::Index(i) => seq!['/'] + crate::render::dec_digits(i as nat),
    }
}

/// The canonical JSON-Pointer rendering of a path: `/`-joined escaped
/// segments; the empty path renders as the empty string.
pub open spec fn path_ptr(segs: Seq<SegModel>) -> Seq<char>
    decreases segs.len(),
{
    if segs.len() == 0 {
        Seq::empty()
    } else {
        seg_ptr(segs[0]) + path_ptr(segs.drop_first())
    }
}

proof fn lemma_ptr_escape_snoc(k: Seq<char>, c: char)
    ensures
        ptr_escape(k + seq![c]) == ptr_escape(k) + ptr_escape(seq![c]),
    decreases k.len(),
{
    if k.len() == 0 {
        assert((k + seq![c])[0] == c);
        assert((k + seq![c]).drop_first() =~= Seq::<char>::empty());
        assert(ptr_escape(k) + ptr_escape(seq![c]) =~= ptr_escape(seq![c]));
        assert(seq![c].drop_first() =~= Seq::<char>::empty());
        assert(ptr_escape(k + seq![c]) =~= ptr_escape(seq![c]));
    } else {
        lemma_ptr_escape_snoc(k.drop_first(), c);
        assert((k + seq![c]).drop_first() =~= k.drop_first() + seq![c]);
        assert((k + seq![c])[0] == k[0]);
        let h = if k[0] == '~' {
            seq!['~', '0']
        } else if k[0] == '/' {
            seq!['~', '1']
        } else {
            seq![k[0]]
        };
        assert(h + (ptr_escape(k.drop_first()) + ptr_escape(seq![c])) =~= (h + ptr_escape(
            k.drop_first(),
        )) + ptr_escape(seq![c]));
    }
}

fn push_ptr_escaped(k: &str, out: &mut String)
    ensures
        final(out)@ == old(out)@ + ptr_escape(k@),
{
    let n = k.unicode_len();
    let mut i: usize = 0;
    proof {
        assert(k@.take(0) =~= Seq::<char>::empty());
        assert(ptr_escape(k@.take(0)) =~= Seq::<char>::empty());
    }
    while i < n
        invariant
            i <= n == k@.len(),
            out@ == old(out)@ + ptr_escape(k@.take(i as int)),
        decreases n - i,
    {
        let c = k.get_char(i);
        if c == '~' {
            crate::render::push_char(out, '~');
            crate::render::push_char(out, '0');
        } else if c == '/' {
            crate::render::push_char(out, '~');
            crate::render::push_char(out, '1');
        } else {
            crate::render::push_char(out, c);
        }
        proof {
            lemma_ptr_escape_snoc(k@.take(i as int), c);
            assert(k@.take(i as int) + seq![c] =~= k@.take(i as int + 1));
            assert(seq![c].drop_first() =~= Seq::<char>::empty());
            assert(ptr_escape(Seq::<char>::empty()) == Seq::<char>::empty());
            if c == '~' {
                assert(ptr_escape(seq![c]) =~= seq!['~', '0']);
                assert(out@ =~= old(out)@ + ptr_escape(k@.take(i as int + 1)));
            } else if c == '/' {
                assert(ptr_escape(seq![c]) =~= seq!['~', '1']);
                assert(out@ =~= old(out)@ + ptr_escape(k@.take(i as int + 1)));
            } else {
                assert(ptr_escape(seq![c]) =~= seq![c]);
                assert(out@ =~= old(out)@ + ptr_escape(k@.take(i as int + 1)));
            }
        }
        i = i + 1;
    }
    proof {
        assert(k@.take(n as int) =~= k@);
    }
}

fn push_path(segs: &Vec<PathSeg>, i: usize, out: &mut String)
    requires
        i <= segs@.len(),
    ensures
        final(out)@ == old(out)@ + path_ptr(segs_model(segs@).skip(i as int)),
    decreases segs@.len() - i,
{
    let ghost s = segs_model(segs@).skip(i as int);
    if i == segs.len() {
        proof {
            assert(old(out)@ + path_ptr(s) =~= old(out)@);
        }
        return ;
    }
    proof {
        assert(s.drop_first() =~= segs_model(segs@).skip(i as int + 1));
        assert(s[0] == seg_model(segs@[i as int]));
    }
    crate::render::push_char(out, '/');
    match &segs[i] {
        PathSeg::Key(k) => {
            push_ptr_escaped(k.as_str(), out);
        },
        PathSeg::Index(ix) => {
            crate::render::push_u64_digits(*ix as u64, out);
        },
    }
    let ghost mid = out@;
    proof {
        assert(mid =~= old(out)@ + seg_ptr(s[0]));
    }
    push_path(segs, i + 1, out);
    proof {
        assert(old(out)@ + seg_ptr(s[0]) + path_ptr(s.drop_first()) =~= old(out)@ + (seg_ptr(s[0])
            + path_ptr(s.drop_first())));
    }
}

/// A path as a JSON-Pointer string.
pub fn path_string(segs: &Vec<PathSeg>) -> (s: String)
    ensures
        s@ == path_ptr(segs_model(segs@)),
{
    let mut s = String::new();
    proof {
        assert(segs_model(segs@).skip(0) =~= segs_model(segs@));
    }
    push_path(segs, 0, &mut s);
    s
}

impl<'a> ValidationError<'a> {
    /// The instance path as a JSON-Pointer string.
    pub fn instance_path_string(&self) -> (s: String)
        ensures
            s@ == path_ptr(segs_model(self.instance_path@)),
    {
        path_string(&self.instance_path)
    }

    /// The schema path as a JSON-Pointer string.
    pub fn schema_path_string(&self) -> (s: String)
        ensures
            s@ == path_ptr(segs_model(self.schema_path@)),
    {
        path_string(&self.schema_path)
    }
}

/// Short-circuiting conjunction of every keyword check of a schema object.
#[verifier::rlimit(30)]
fn valid_obj(
    root: &Value,
    table: &Vec<(String, regex::Regex)>,
    sdoc: &Value,
    v: &Value,
    g: u64,
) -> (r: bool)
    requires
        table_ok(table@),
        covers(table@, *root),
        covers(table@, *sdoc),
    ensures
        r == (crate::sem::obj_errs(*root, *sdoc, *v, g as nat).len() == 0),
    decreases g, 30nat, 0nat,
{
    if eval_type(sdoc, v).len() != 0 {
        return false;
    }
    if eval_enum(sdoc, v).len() != 0 {
        return false;
    }
    if eval_const(sdoc, v).len() != 0 {
        return false;
    }
    if eval_minimum(sdoc, v).len() != 0 {
        return false;
    }
    if eval_maximum(sdoc, v).len() != 0 {
        return false;
    }
    if eval_excl_min(sdoc, v).len() != 0 {
        return false;
    }
    if eval_excl_max(sdoc, v).len() != 0 {
        return false;
    }
    if eval_multiple_of(sdoc, v).len() != 0 {
        return false;
    }
    if eval_min_length(sdoc, v).len() != 0 {
        return false;
    }
    if eval_max_length(sdoc, v).len() != 0 {
        return false;
    }
    if eval_pattern(table, sdoc, v).len() != 0 {
        return false;
    }
    if eval_required(sdoc, v).len() != 0 {
        return false;
    }
    if eval_dep_required(sdoc, v).len() != 0 {
        return false;
    }
    if !valid_properties(root, table, sdoc, v, g) {
        return false;
    }
    if !valid_pp(root, table, sdoc, v, g) {
        return false;
    }
    if !valid_addl(root, table, sdoc, v, g) {
        return false;
    }
    if !valid_items(root, table, sdoc, v, g) {
        return false;
    }
    if eval_contains(root, table, sdoc, v, g).len() != 0 {
        return false;
    }
    if eval_unique_items(sdoc, v).len() != 0 {
        return false;
    }
    if !valid_all_of(root, table, sdoc, v, g) {
        return false;
    }
    if eval_any_of(root, table, sdoc, v, g).len() != 0 {
        return false;
    }
    if eval_one_of(root, table, sdoc, v, g).len() != 0 {
        return false;
    }
    if eval_not(root, table, sdoc, v, g).len() != 0 {
        return false;
    }
    if !valid_ifte(root, table, sdoc, v, g) {
        return false;
    }
    if !valid_ref(root, table, sdoc, v, g) {
        return false;
    }
    true
}

fn valid_props_list(
    root: &Value,
    table: &Vec<(String, regex::Regex)>,
    props: &Vec<(String, Value)>,
    ms: &Vec<(String, Value)>,
    i: usize,
    g: u64,
) -> (r: bool)
    requires
        i <= props@.len(),
        table_ok(table@),
        covers(table@, *root),
        members_covered(table@, props@),
    ensures
        r == (crate::sem::props_errs(*root, props@.skip(i as int), ms@, g as nat).len() == 0),
    decreases g, 28nat, props@.len() - i,
{
    let ghost s = props@.skip(i as int);
    if i == props.len() {
        return true;
    }
    proof {
        assert(s.drop_first() =~= props@.skip(i as int + 1));
        assert(s[0] == props@[i as int]);
        lemma_member_covered(table@, props@, i as int);
    }
    match lookup_str(ms, props[i].0.as_str()) {
        Some(child) => {
            if !eval_valid(root, table, &props[i].1, child, g) {
                return false;
            }
        },
        None => {},
    }
    valid_props_list(root, table, props, ms, i + 1, g)
}

fn valid_properties(
    root: &Value,
    table: &Vec<(String, regex::Regex)>,
    sdoc: &Value,
    v: &Value,
    g: u64,
) -> (r: bool)
    requires
        table_ok(table@),
        covers(table@, *root),
        covers(table@, *sdoc),
    ensures
        r == (crate::sem::kw_properties_errs(*root, *sdoc, *v, g as nat).len() == 0),
    decreases g, 29nat, 0nat,
{
    match (kw_get(sdoc, "properties"), v) {
        (Some(Value::Object(props)), Value::Object(ms)) => {
            proof {
                assert(props@.skip(0) =~= props@);
                match sdoc {
                    Value::Object(sms) => {
                        lemma_lookup_covered(table@, sms@, "properties"@, Value::Object(*props));
                    },
                    _ => {},
                }
            }
            valid_props_list(root, table, props, ms, 0, g)
        },
        _ => true,
    }
}

fn valid_pp_one(
    root: &Value,
    table: &Vec<(String, regex::Regex)>,
    pat: &String,
    re: &regex::Regex,
    sub: &Value,
    ms: &Vec<(String, Value)>,
    i: usize,
    g: u64,
) -> (r: bool)
    requires
        i <= ms@.len(),
        table_ok(table@),
        covers(table@, *root),
        covers(table@, *sub),
        regex_lang(*re) == pattern_lang(pat@),
    ensures
        r == (crate::sem::pp_one_errs(*root, pat@, *sub, ms@.skip(i as int), g as nat).len() == 0),
    decreases g, 27nat, ms@.len() - i,
{
    let ghost s = ms@.skip(i as int);
    if i == ms.len() {
        return true;
    }
    proof {
        assert(s.drop_first() =~= ms@.skip(i as int + 1));
        assert(s[0] == ms@[i as int]);
    }
    if crate::rx::regex_is_match(re, ms[i].0.as_str()) {
        if !eval_valid(root, table, sub, &ms[i].1, g) {
            return false;
        }
    }
    valid_pp_one(root, table, pat, re, sub, ms, i + 1, g)
}

fn valid_pp_list(
    root: &Value,
    table: &Vec<(String, regex::Regex)>,
    pps: &Vec<(String, Value)>,
    ms: &Vec<(String, Value)>,
    v: &Value,
    i: usize,
    g: u64,
) -> (r: bool)
    requires
        i <= pps@.len(),
        table_ok(table@),
        covers(table@, *root),
        members_covered(table@, pps@),
        keys_in_table(table@, pps@),
    ensures
        r == (crate::sem::pp_errs(*root, pps@.skip(i as int), ms@, *v, g as nat).len() == 0),
    decreases g, 28nat, pps@.len() - i,
{
    let ghost s = pps@.skip(i as int);
    if i == pps.len() {
        return true;
    }
    proof {
        assert(s.drop_first() =~= pps@.skip(i as int + 1));
        assert(s[0] == pps@[i as int]);
        lemma_member_covered(table@, pps@, i as int);
        lemma_pp_key_covered(table@, pps@, i as int);
    }
    match find_pattern(table, &pps[i].0) {
        Some(re) => {
            proof {
                assert(regex_lang(*re) == pattern_lang(pps@[i as int].0@));
                assert(ms@.skip(0) =~= ms@);
            }
            if !valid_pp_one(root, table, &pps[i].0, re, &pps[i].1, ms, 0, g) {
                return false;
            }
        },
        None => {
            proof {
                assert(!pattern_valid(pps@[i as int].0@));
            }
            return false;
        },
    }
    valid_pp_list(root, table, pps, ms, v, i + 1, g)
}

fn valid_pp(
    root: &Value,
    table: &Vec<(String, regex::Regex)>,
    sdoc: &Value,
    v: &Value,
    g: u64,
) -> (r: bool)
    requires
        table_ok(table@),
        covers(table@, *root),
        covers(table@, *sdoc),
    ensures
        r == (crate::sem::kw_pp_errs(*root, *sdoc, *v, g as nat).len() == 0),
    decreases g, 29nat, 0nat,
{
    match (kw_get(sdoc, "patternProperties"), v) {
        (Some(Value::Object(pps)), Value::Object(ms)) => {
            proof {
                assert(pps@.skip(0) =~= pps@);
                match sdoc {
                    Value::Object(sms) => {
                        lemma_lookup_covered(
                            table@,
                            sms@,
                            "patternProperties"@,
                            Value::Object(*pps),
                        );
                    },
                    _ => {},
                }
            }
            valid_pp_list(root, table, pps, ms, v, 0, g)
        },
        _ => true,
    }
}

fn valid_addl_list(
    root: &Value,
    table: &Vec<(String, regex::Regex)>,
    sub: &Value,
    props: &Vec<(String, Value)>,
    pps: &Vec<(String, Value)>,
    ms: &Vec<(String, Value)>,
    i: usize,
    g: u64,
) -> (r: bool)
    requires
        i <= ms@.len(),
        table_ok(table@),
        covers(table@, *root),
        covers(table@, *sub),
        keys_in_table(table@, pps@),
    ensures
        r == (crate::sem::addl_errs(*root, *sub, props@, pps@, ms@.skip(i as int), g as nat).len()
            == 0),
    decreases g, 28nat, ms@.len() - i,
{
    let ghost s = ms@.skip(i as int);
    if i == ms.len() {
        return true;
    }
    proof {
        assert(s.drop_first() =~= ms@.skip(i as int + 1));
        assert(s[0] == ms@[i as int]);
        assert(pps@.skip(0) =~= pps@);
    }
    let named = lookup_str(props, ms[i].0.as_str()).is_some();
    if !named && !any_pp_match_exec(table, pps, &ms[i].0, 0) {
        if !eval_valid(root, table, sub, &ms[i].1, g) {
            return false;
        }
    }
    valid_addl_list(root, table, sub, props, pps, ms, i + 1, g)
}

fn valid_addl(
    root: &Value,
    table: &Vec<(String, regex::Regex)>,
    sdoc: &Value,
    v: &Value,
    g: u64,
) -> (r: bool)
    requires
        table_ok(table@),
        covers(table@, *root),
        covers(table@, *sdoc),
    ensures
        r == (crate::sem::kw_addl_errs(*root, *sdoc, *v, g as nat).len() == 0),
    decreases g, 29nat, 0nat,
{
    let empty_members: Vec<(String, Value)> = Vec::new();
    match (kw_get(sdoc, "additionalProperties"), v) {
        (Some(sub), Value::Object(ms)) => {
            let props: &Vec<(String, Value)> = match kw_get(sdoc, "properties") {
                Some(Value::Object(props)) => props,
                _ => &empty_members,
            };
            let pps: &Vec<(String, Value)> = match kw_get(sdoc, "patternProperties") {
                Some(Value::Object(pps)) => pps,
                _ => &empty_members,
            };
            proof {
                assert(props@ =~= crate::sem::props_of(*sdoc));
                assert(pps@ =~= crate::sem::pp_of(*sdoc));
                assert(ms@.skip(0) =~= ms@);
                match sdoc {
                    Value::Object(sms) => {
                        lemma_lookup_covered(table@, sms@, "additionalProperties"@, *sub);
                        assert(keys_in_table(table@, pps@));
                    },
                    _ => {},
                }
            }
            valid_addl_list(root, table, sub, props, pps, ms, 0, g)
        },
        _ => true,
    }
}

fn valid_items_list(
    root: &Value,
    table: &Vec<(String, regex::Regex)>,
    sub: &Value,
    items: &Vec<Value>,
    i: usize,
    g: u64,
) -> (r: bool)
    requires
        i <= items@.len(),
        table_ok(table@),
        covers(table@, *root),
        covers(table@, *sub),
    ensures
        r == (crate::sem::items_errs(*root, *sub, items@, i as int, g as nat).len() == 0),
    decreases g, 28nat, items@.len() - i,
{
    if i == items.len() {
        return true;
    }
    if !eval_valid(root, table, sub, &items[i], g) {
        return false;
    }
    valid_items_list(root, table, sub, items, i + 1, g)
}

fn valid_items(
    root: &Value,
    table: &Vec<(String, regex::Regex)>,
    sdoc: &Value,
    v: &Value,
    g: u64,
) -> (r: bool)
    requires
        table_ok(table@),
        covers(table@, *root),
        covers(table@, *sdoc),
    ensures
        r == (crate::sem::kw_items_errs(*root, *sdoc, *v, g as nat).len() == 0),
    decreases g, 29nat, 0nat,
{
    match (kw_get(sdoc, "items"), v) {
        (Some(sub), Value::Array(items)) => {
            proof {
                match sdoc {
                    Value::Object(sms) => {
                        lemma_lookup_covered(table@, sms@, "items"@, *sub);
                    },
                    _ => {},
                }
            }
            valid_items_list(root, table, sub, items, 0, g)
        },
        _ => true,
    }
}

fn valid_all_of_list(
    root: &Value,
    table: &Vec<(String, regex::Regex)>,
    subs: &Vec<Value>,
    v: &Value,
    i: usize,
    g: u64,
) -> (r: bool)
    requires
        i <= subs@.len(),
        table_ok(table@),
        covers(table@, *root),
        items_covered(table@, subs@),
    ensures
        r == (crate::sem::all_of_errs(*root, subs@, *v, i as int, g as nat).len() == 0),
    decreases g, 28nat, subs@.len() - i,
{
    if i == subs.len() {
        return true;
    }
    proof {
        lemma_item_covered(table@, subs@, i as int);
    }
    if !eval_valid(root, table, &subs[i], v, g) {
        return false;
    }
    valid_all_of_list(root, table, subs, v, i + 1, g)
}

fn valid_all_of(
    root: &Value,
    table: &Vec<(String, regex::Regex)>,
    sdoc: &Value,
    v: &Value,
    g: u64,
) -> (r: bool)
    requires
        table_ok(table@),
        covers(table@, *root),
        covers(table@, *sdoc),
    ensures
        r == (crate::sem::kw_all_of_errs(*root, *sdoc, *v, g as nat).len() == 0),
    decreases g, 29nat, 0nat,
{
    match kw_get(sdoc, "allOf") {
        Some(Value::Array(subs)) => {
            proof {
                match sdoc {
                    Value::Object(sms) => {
                        lemma_lookup_covered(table@, sms@, "allOf"@, Value::Array(*subs));
                    },
                    _ => {},
                }
            }
            valid_all_of_list(root, table, subs, v, 0, g)
        },
        _ => true,
    }
}

fn valid_ifte(
    root: &Value,
    table: &Vec<(String, regex::Regex)>,
    sdoc: &Value,
    v: &Value,
    g: u64,
) -> (r: bool)
    requires
        table_ok(table@),
        covers(table@, *root),
        covers(table@, *sdoc),
    ensures
        r == (crate::sem::kw_ifte_errs(*root, *sdoc, *v, g as nat).len() == 0),
    decreases g, 29nat, 0nat,
{
    match kw_get(sdoc, "if") {
        Some(c) => {
            proof {
                match sdoc {
                    Value::Object(sms) => {
                        lemma_lookup_covered(table@, sms@, "if"@, *c);
                    },
                    _ => {},
                }
            }
            let branch: &str = if eval_valid(root, table, c, v, g) {
                "then"
            } else {
                "else"
            };
            match kw_get(sdoc, branch) {
                Some(t) => {
                    proof {
                        match sdoc {
                            Value::Object(sms) => {
                                lemma_lookup_covered(table@, sms@, branch@, *t);
                            },
                            _ => {},
                        }
                    }
                    eval_valid(root, table, t, v, g)
                },
                None => true,
            }
        },
        None => true,
    }
}

fn valid_ref(
    root: &Value,
    table: &Vec<(String, regex::Regex)>,
    sdoc: &Value,
    v: &Value,
    g: u64,
) -> (r: bool)
    requires
        table_ok(table@),
        covers(table@, *root),
        covers(table@, *sdoc),
    ensures
        r == (crate::sem::kw_ref_errs(*root, *sdoc, *v, g as nat).len() == 0),
    decreases g, 29nat, 0nat,
{
    match kw_get(sdoc, "$ref") {
        Some(Value::Str(rp)) => {
            match crate::ptr::resolve_pointer(root, rp.as_str()) {
                Some(t) => {
                    proof {
                        lemma_resolve_covered(table@, *root, rp@, 1, *t);
                    }
                    eval_valid(root, table, t, v, g)
                },
                None => false,
            }
        },
        _ => true,
    }
}

} // verus!
