//! Capture of variables by nested functions: a function that reads a register of an
//! enclosing function gets it as an extra parameter, and every call passes it along.
use vstd::prelude::*;
use crate::ir;
use crate::ir::{Instr, InstrV, Operand, OperandV};
use crate::text::{chars_of, same_text};

verus! {

/// Whether `a` comes before `b` in the order of strings: character by character by code
/// point, a proper prefix first. UTF-8 keeps the order of code points, so this is the
/// order in which `sort` puts strings.
pub open spec fn str_lt(a: Seq<char>, b: Seq<char>) -> bool
    decreases a.len(),
{
    if a.len() == 0 {
        b.len() > 0
    } else if b.len() == 0 {
        false
    } else if a[0] != b[0] {
        a[0] < b[0]
    } else {
        str_lt(a.drop_first(), b.drop_first())
    }
}

pub proof fn lemma_str_lt_irrefl(a: Seq<char>)
    ensures
        !str_lt(a, a),
    decreases a.len(),
{
    if a.len() > 0 {
        lemma_str_lt_irrefl(a.drop_first());
    }
}

pub proof fn lemma_str_lt_trans(a: Seq<char>, b: Seq<char>, c: Seq<char>)
    requires
        str_lt(a, b),
        str_lt(b, c),
    ensures
        str_lt(a, c),
    decreases a.len(),
{
    if a.len() > 0 && b.len() > 0 && c.len() > 0 {
        if a[0] == b[0] && b[0] == c[0] {
            lemma_str_lt_trans(a.drop_first(), b.drop_first(), c.drop_first());
        }
    }
}

pub proof fn lemma_str_lt_total(a: Seq<char>, b: Seq<char>)
    requires
        a != b,
    ensures
        str_lt(a, b) || str_lt(b, a),
    decreases a.len(),
{
    if a.len() == 0 {
        if b.len() == 0 {
            assert(a =~= b);
        }
    } else if b.len() > 0 && a[0] == b[0] {
        if a.drop_first() == b.drop_first() {
            assert(a =~= seq![a[0]] + a.drop_first());
            assert(b =~= seq![b[0]] + b.drop_first());
        }
        lemma_str_lt_total(a.drop_first(), b.drop_first());
    }
}

/// Whether `a` comes before `b`.
fn str_less(a: &str, b: &str) -> (r: bool)
    ensures
        r == str_lt(a@, b@),
{
    let x = chars_of(a);
    let y = chars_of(b);
    let mut i: usize = 0;
    assert(a@.skip(0) =~= a@);
    assert(b@.skip(0) =~= b@);
    while i < x.len() && i < y.len() && x[i] == y[i]
        invariant
            x@ == a@,
            y@ == b@,
            i <= x.len(),
            i <= y.len(),
            str_lt(a@, b@) == str_lt(a@.skip(i as int), b@.skip(i as int)),
        decreases x.len() - i,
    {
        proof {
            assert(a@.skip(i as int).drop_first() =~= a@.skip(i + 1));
            assert(b@.skip(i as int).drop_first() =~= b@.skip(i + 1));
        }
        i += 1;
    }
    if i == x.len() {
        i < y.len()
    } else if i == y.len() {
        false
    } else {
        x[i] < y[i]
    }
}

/// Whether the strings are in strictly increasing order.
pub open spec fn sorted_strict(q: Seq<Seq<char>>) -> bool {
    forall|i: int, j: int| 0 <= i < j < q.len() ==> str_lt(#[trigger] q[i], #[trigger] q[j])
}

/// The strings of a set in increasing order.
pub open spec fn sorted_of(s: Set<Seq<char>>) -> Seq<Seq<char>> {
    choose|q: Seq<Seq<char>>| sorted_strict(q) && q.to_set() == s
}

/// Two increasing sequences of the same strings are the same.
pub proof fn lemma_sorted_unique(p: Seq<Seq<char>>, q: Seq<Seq<char>>)
    requires
        sorted_strict(p),
        sorted_strict(q),
        p.to_set() == q.to_set(),
    ensures
        p == q,
    decreases p.len(),
{
    if p.len() == 0 {
        if q.len() > 0 {
            assert(q.to_set().contains(q[0]));
        }
        assert(p =~= q);
    } else if q.len() == 0 {
        assert(p.to_set().contains(p[0]));
    } else {
        assert(q.to_set().contains(p[0]));
        assert(p.to_set().contains(q[0]));
        let j = choose|j: int| 0 <= j < q.len() && q[j] == p[0];
        let k = choose|k: int| 0 <= k < p.len() && p[k] == q[0];
        if p[0] != q[0] {
            if j > 0 {
                assert(str_lt(q[0], q[j]));
                if k > 0 {
                    assert(str_lt(p[0], p[k]));
                    lemma_str_lt_trans(p[0], q[0], p[0]);
                    lemma_str_lt_irrefl(p[0]);
                }
            }
        }
        assert(p[0] == q[0]);
        let p1 = p.drop_first();
        let q1 = q.drop_first();
        assert forall|x: Seq<char>| p1.to_set().contains(x) implies q1.to_set().contains(x) by {
            let a = choose|a: int| 0 <= a < p1.len() && p1[a] == x;
            assert(p.to_set().contains(x) && p[a + 1] == x);
            let b = choose|b: int| 0 <= b < q.len() && q[b] == x;
            if b == 0 {
                assert(str_lt(p[0], p[a + 1]));
                lemma_str_lt_irrefl(p[0]);
            }
            assert(q1[b - 1] == x);
        }
        assert forall|x: Seq<char>| q1.to_set().contains(x) implies p1.to_set().contains(x) by {
            let a = choose|a: int| 0 <= a < q1.len() && q1[a] == x;
            assert(q.to_set().contains(x) && q[a + 1] == x);
            let b = choose|b: int| 0 <= b < p.len() && p[b] == x;
            if b == 0 {
                assert(str_lt(q[0], q[a + 1]));
                lemma_str_lt_irrefl(q[0]);
            }
            assert(p1[b - 1] == x);
        }
        assert(p1.to_set() =~= q1.to_set());
        lemma_sorted_unique(p1, q1);
        assert(p =~= seq![p[0]] + p1);
        assert(q =~= seq![q[0]] + q1);
    }
}

/// A strictly increasing sequence is the sorted form of its set.
pub proof fn lemma_sorted_of(q: Seq<Seq<char>>)
    requires
        sorted_strict(q),
    ensures
        sorted_of(q.to_set()) == q,
{
    let p = sorted_of(q.to_set());
    lemma_sorted_unique(p, q);
}

pub open spec fn sv(v: Seq<String>) -> Seq<Seq<char>> {
    ir::strings_view(v)
}

/// The strings in increasing order.
fn sort_strings(v: &Vec<String>) -> (r: Vec<String>)
    requires
        sv(v@).no_duplicates(),
    ensures
        sorted_strict(sv(r@)),
        sv(r@).to_set() == sv(v@).to_set(),
{
    let mut r: Vec<String> = Vec::new();
    let mut i: usize = 0;
    while i < v.len()
        invariant
            sv(v@).no_duplicates(),
            i <= v.len(),
            sorted_strict(sv(r@)),
            sv(r@).to_set() == sv(v@).take(i as int).to_set(),
        decreases v.len() - i,
    {
        let x = v[i].clone();
        proof {
            assert(sv(v@)[i as int] == x@);
            assert(!sv(r@).to_set().contains(x@)) by {
                if sv(r@).to_set().contains(x@) {
                    let k = choose|k: int| 0 <= k < i && sv(v@).take(i as int)[k] == x@;
                    assert(sv(v@)[k] == sv(v@)[i as int]);
                }
            }
        }
        let mut j: usize = 0;
        while j < r.len() && !str_less(x.as_str(), r[j].as_str())
            invariant
                j <= r.len(),
                sorted_strict(sv(r@)),
                !sv(r@).to_set().contains(x@),
                forall|k: int| 0 <= k < j ==> str_lt(#[trigger] sv(r@)[k], x@),
            decreases r.len() - j,
        {
            proof {
                assert(sv(r@).to_set().contains(sv(r@)[j as int]));
                lemma_str_lt_total(sv(r@)[j as int], x@);
            }
            j += 1;
        }
        let ghost before = sv(r@);
        r.insert(j, x);
        proof {
            assert(sv(r@) =~= before.insert(j as int, x@));
            assert forall|a: int, b: int| 0 <= a < b < sv(r@).len() implies str_lt(
                #[trigger] sv(r@)[a],
                #[trigger] sv(r@)[b],
            ) by {
                if a < j && b < j {
                } else if a < j && b == j {
                } else if a < j && b > j {
                    assert(str_lt(before[a], before[b - 1]));
                } else if a == j {
                    if b - 1 > j {
                        assert(str_lt(before[j as int], before[b - 1]));
                        lemma_str_lt_trans(x@, before[j as int], before[b - 1]);
                    }
                } else {
                    assert(str_lt(before[a - 1], before[b - 1]));
                }
            }
            assert(sv(v@).take(i + 1) =~= sv(v@).take(i as int).push(x@));
            assert(sv(r@).to_set() =~= sv(v@).take(i + 1).to_set()) by {
                assert forall|y: Seq<char>| sv(r@).to_set().contains(y) implies sv(v@).take(i + 1).to_set().contains(y) by {
                    let a = choose|a: int| 0 <= a < sv(r@).len() && sv(r@)[a] == y;
                    if a == j {
                        assert(sv(v@).take(i + 1)[i as int] == y);
                    } else if a < j {
                        assert(before.to_set().contains(before[a]));
                        let b = choose|b: int| 0 <= b < i && sv(v@).take(i as int)[b] == y;
                        assert(sv(v@).take(i + 1)[b] == y);
                    } else {
                        assert(before.to_set().contains(before[a - 1]));
                        let b = choose|b: int| 0 <= b < i && sv(v@).take(i as int)[b] == y;
                        assert(sv(v@).take(i + 1)[b] == y);
                    }
                }
                assert forall|y: Seq<char>| sv(v@).take(i + 1).to_set().contains(y) implies sv(r@).to_set().contains(y) by {
                    let t1 = sv(v@).take(i + 1);
                    let b = choose|b: int| 0 <= b < t1.len() && t1[b] == y;
                    if b == i {
                        assert(sv(r@)[j as int] == y);
                    } else {
                        assert(sv(v@).take(i as int).to_set().contains(y));
                        let a = choose|a: int| 0 <= a < before.len() && before[a] == y;
                        if a < j {
                            assert(sv(r@)[a] == y);
                        } else {
                            assert(sv(r@)[a + 1] == y);
                        }
                    }
                }
            }
        }
        i += 1;
    }
    assert(sv(v@).take(v.len() as int) == sv(v@));
    r
}

/// The set of a sequence with one more string is the set with that string.
proof fn lemma_push_to_set(s: Seq<Seq<char>>, x: Seq<char>)
    ensures
        s.push(x).to_set() == s.to_set().insert(x),
{
    assert forall|y: Seq<char>| s.push(x).to_set().contains(y) <==> s.to_set().insert(x).contains(y) by {
        if s.push(x).contains(y) {
            let i = choose|i: int| 0 <= i < s.push(x).len() && s.push(x)[i] == y;
            if i < s.len() {
                assert(s[i] == y);
            }
        }
        if s.contains(y) {
            let i = choose|i: int| 0 <= i < s.len() && s[i] == y;
            assert(s.push(x)[i] == y);
        }
        assert(s.push(x)[s.len() as int] == x);
    }
    assert(s.push(x).to_set() =~= s.to_set().insert(x));
}

/// The strings of a vector, as a set.
pub open spec fn set_of(v: Seq<String>) -> Set<Seq<char>> {
    sv(v).to_set()
}

/// Whether `v` holds `s`.
fn holds(v: &Vec<String>, s: &str) -> (r: bool)
    ensures
        r == set_of(v@).contains(s@),
{
    let mut i: usize = 0;
    while i < v.len()
        invariant
            i <= v.len(),
            forall|j: int| 0 <= j < i ==> sv(v@)[j] != s@,
        decreases v.len() - i,
    {
        if same_text(v[i].as_str(), s) {
            assert(sv(v@)[i as int] == s@);
            return true;
        }
        i += 1;
    }
    proof {
        if sv(v@).contains(s@) {
            let j = choose|j: int| 0 <= j < sv(v@).len() && sv(v@)[j] == s@;
        }
    }
    false
}

/// Adds `s` to `v`, unless `v` holds it already.
fn add_unique(v: &mut Vec<String>, s: String)
    requires
        sv(old(v)@).no_duplicates(),
    ensures
        sv(final(v)@).no_duplicates(),
        set_of(final(v)@) == set_of(old(v)@).insert(s@),
{
    if !holds(v, s.as_str()) {
        let ghost before = sv(v@);
        v.push(s);
        proof {
            assert(sv(v@) =~= before.push(s@));
            lemma_push_to_set(before, s@);
        }
    } else {
        assert(set_of(v@) =~= set_of(old(v)@).insert(s@));
    }
}

/// A copy of the strings, without repetitions.
fn unique_copy(v: &Vec<String>) -> (r: Vec<String>)
    ensures
        sv(r@).no_duplicates(),
        set_of(r@) == set_of(v@),
{
    let mut r: Vec<String> = Vec::new();
    let mut i: usize = 0;
    proof {
        assert(set_of(r@) =~= sv(v@).take(0).to_set());
    }
    while i < v.len()
        invariant
            i <= v.len(),
            sv(r@).no_duplicates(),
            set_of(r@) == sv(v@).take(i as int).to_set(),
        decreases v.len() - i,
    {
        add_unique(&mut r, v[i].clone());
        proof {
            assert(sv(v@).take(i + 1) =~= sv(v@).take(i as int).push(sv(v@)[i as int]));
            lemma_push_to_set(sv(v@).take(i as int), sv(v@)[i as int]);
        }
        i += 1;
    }
    assert(sv(v@).take(v.len() as int) == sv(v@));
    r
}

/// The analysis of a function with the given parameters and body: the registers that it
/// reads before its parameters or its body define them (what it captures), the names
/// that it calls, and the registers that its parameters and its body define.
pub open spec fn analyze(params: Seq<Seq<char>>, body: Seq<InstrV>) -> (Set<Seq<char>>, Set<Seq<char>>, Set<Seq<char>>)
    decreases body.len(),
{
    if body.len() == 0 {
        (Set::empty(), Set::empty(), params.to_set())
    } else {
        let (caps, calls, def) = analyze(params, body.drop_last());
        let i = body.last();
        (
            caps.union(ir::instr_uses(i).to_set().difference(def)),
            match i {
                InstrV::Call { name, .. } => calls.insert(name),
                _ => calls,
            },
            match ir::instr_def(i) {
                Some(d) => def.insert(d),
                None => def,
            },
        )
    }
}

/// Analyzes a function.
fn analyze_fn(params: &Vec<String>, body: &Vec<Instr>) -> (r: (Vec<String>, Vec<String>, Vec<String>))
    ensures
        (set_of(r.0@), set_of(r.1@), set_of(r.2@)) == analyze(sv(params@), ir::instrs_view(body@)),
        sv(r.0@).no_duplicates(),
        sv(r.1@).no_duplicates(),
        sv(r.2@).no_duplicates(),
{
    let mut defined = unique_copy(params);
    let mut captures: Vec<String> = Vec::new();
    let mut calls: Vec<String> = Vec::new();
    let ghost bv = ir::instrs_view(body@);
    proof {
        ir::lemma_instrs_view(body@);
        assert(bv.take(0) == Seq::<InstrV>::empty());
        assert(set_of(captures@) =~= Set::<Seq<char>>::empty());
        assert(set_of(calls@) =~= Set::<Seq<char>>::empty());
    }
    let mut i: usize = 0;
    while i < body.len()
        invariant
            bv == ir::instrs_view(body@),
            bv.len() == body.len(),
            forall|j: int| 0 <= j < body.len() ==> #[trigger] bv[j] == ir::instr_view(body@[j]),
            i <= body.len(),
            sv(captures@).no_duplicates(),
            sv(calls@).no_duplicates(),
            sv(defined@).no_duplicates(),
            (set_of(captures@), set_of(calls@), set_of(defined@)) == analyze(sv(params@), bv.take(i as int)),
        decreases body.len() - i,
    {
        proof {
            assert(bv.take(i + 1).drop_last() == bv.take(i as int));
            assert(bv.take(i + 1).last() == bv[i as int]);
        }
        let instr = &body[i];
        if let Instr::Call { name, .. } = instr {
            add_unique(&mut calls, name.clone());
        }
        let uses = instr.get_use();
        let ghost caps0 = set_of(captures@);
        let ghost def0 = set_of(defined@);
        let mut u: usize = 0;
        while u < uses.len()
            invariant
                u <= uses.len(),
                sv(captures@).no_duplicates(),
                set_of(defined@) == def0,
                set_of(captures@) == caps0.union(sv(uses@).take(u as int).to_set().difference(def0)),
            decreases uses.len() - u,
        {
            if !holds(&defined, uses[u].as_str()) {
                add_unique(&mut captures, uses[u].clone());
            }
            proof {
                assert(sv(uses@).take(u + 1) =~= sv(uses@).take(u as int).push(sv(uses@)[u as int]));
                lemma_push_to_set(sv(uses@).take(u as int), sv(uses@)[u as int]);
                assert(set_of(captures@) =~= caps0.union(sv(uses@).take(u + 1).to_set().difference(def0)));
            }
            u += 1;
        }
        proof {
            assert(sv(uses@).take(uses.len() as int) == sv(uses@));
        }
        match instr.get_def() {
            Some(d) => add_unique(&mut defined, d),
            None => {},
        }
        i += 1;
    }
    assert(bv.take(body.len() as int) == bv);
    (captures, calls, defined)
}

/// The facts of a function: its name, the registers that it captures, the names that
/// it calls, and the registers that it defines.
pub struct FnFacts {
    pub name: Seq<char>,
    pub caps: Set<Seq<char>>,
    pub calls: Set<Seq<char>>,
    pub defined: Set<Seq<char>>,
}

pub open spec fn fact_names(t: Seq<FnFacts>) -> Seq<Seq<char>> {
    t.map_values(|e: FnFacts| e.name)
}

/// The last position of `name` in `names`, if any.
pub open spec fn find_name(names: Seq<Seq<char>>, name: Seq<char>) -> Option<int>
    decreases names.len(),
{
    if names.len() == 0 {
        None
    } else if names.last() == name {
        Some(names.len() - 1)
    } else {
        find_name(names.drop_last(), name)
    }
}

proof fn lemma_find_name(names: Seq<Seq<char>>, name: Seq<char>)
    ensures
        find_name(names, name) matches Some(k) ==> 0 <= k < names.len() && names[k] == name,
        find_name(names, name) is None ==> !names.contains(name),
    decreases names.len(),
{
    if names.len() > 0 {
        lemma_find_name(names.drop_last(), name);
        if find_name(names, name) is None {
            assert forall|i: int| 0 <= i < names.len() implies names[i] != name by {
                if i < names.len() - 1 {
                    assert(names.drop_last()[i] == names[i]);
                }
            }
        }
    }
}

/// The facts of the functions of the top level: one entry per name, in the order in
/// which the names are first declared; a later declaration of a name replaces the facts
/// of the earlier one.
pub open spec fn fn_entries(s: Seq<InstrV>) -> Seq<FnFacts>
    decreases s.len(),
{
    if s.len() == 0 {
        seq![]
    } else {
        let t = fn_entries(s.drop_last());
        match s.last() {
            InstrV::FnDecl { name, params, body } => {
                let (c, k, d) = analyze(params, body);
                let e = FnFacts { name, caps: c, calls: k, defined: d };
                match find_name(fact_names(t), name) {
                    Some(idx) => t.update(idx, e),
                    None => t.push(e),
                }
            },
            _ => t,
        }
    }
}

/// What the analysis found of one function.
struct FnInfo {
    name: String,
    caps: Vec<String>,
    calls: Vec<String>,
    defined: Vec<String>,
}

spec fn info_view(f: FnInfo) -> FnFacts {
    FnFacts { name: f.name@, caps: set_of(f.caps@), calls: set_of(f.calls@), defined: set_of(f.defined@) }
}

spec fn table_view(t: Seq<FnInfo>) -> Seq<FnFacts> {
    t.map_values(|f: FnInfo| info_view(f))
}

spec fn info_ok(f: FnInfo) -> bool {
    sv(f.caps@).no_duplicates() && sv(f.calls@).no_duplicates() && sv(f.defined@).no_duplicates()
}

spec fn table_ok(t: Seq<FnInfo>) -> bool {
    forall|k: int| 0 <= k < t.len() ==> info_ok(#[trigger] t[k])
}

/// The position of the function `name` in the table.
fn find_fn(tab: &Vec<FnInfo>, name: &str) -> (r: Option<usize>)
    ensures
        match r {
            Some(k) => find_name(fact_names(table_view(tab@)), name@) == Some(k as int),
            None => find_name(fact_names(table_view(tab@)), name@) is None,
        },
{
    let ghost names = fact_names(table_view(tab@));
    let mut j: usize = tab.len();
    proof {
        assert(names.take(j as int) =~= names);
    }
    while j > 0
        invariant
            j <= tab.len(),
            names == fact_names(table_view(tab@)),
            names.len() == tab.len(),
            find_name(names, name@) == find_name(names.take(j as int), name@),
        decreases j,
    {
        proof {
            assert(names.take(j as int).drop_last() =~= names.take(j - 1));
            assert(names.take(j as int).last() == tab@[j - 1].name@);
        }
        if same_text(tab[j - 1].name.as_str(), name) {
            return Some(j - 1);
        }
        j -= 1;
    }
    None
}

/// The facts of each function of the top level.
fn build_table(instrs: &[Instr]) -> (r: Vec<FnInfo>)
    ensures
        table_view(r@) == fn_entries(ir::instrs_view(instrs@)),
        table_ok(r@),
{
    let ghost vv = ir::instrs_view(instrs@);
    proof {
        ir::lemma_instrs_view(instrs@);
        assert(vv.take(0) == Seq::<InstrV>::empty());
    }
    let mut tab: Vec<FnInfo> = Vec::new();
    proof {
        assert(table_view(tab@) =~= fn_entries(vv.take(0)));
    }
    let mut i: usize = 0;
    while i < instrs.len()
        invariant
            vv == ir::instrs_view(instrs@),
            vv.len() == instrs.len(),
            forall|j: int| 0 <= j < instrs.len() ==> #[trigger] vv[j] == ir::instr_view(instrs@[j]),
            i <= instrs.len(),
            table_ok(tab@),
            table_view(tab@) == fn_entries(vv.take(i as int)),
        decreases instrs.len() - i,
    {
        proof {
            assert(vv.take(i + 1).drop_last() == vv.take(i as int));
            assert(vv.take(i + 1).last() == vv[i as int]);
        }
        if let Instr::FnDecl { name, params, body } = &instrs[i] {
            let (caps, calls, defined) = analyze_fn(params, body);
            let info = FnInfo { name: name.clone(), caps, calls, defined };
            let ghost before = tab@;
            assert(info_ok(info));
            proof {
                lemma_find_name(fact_names(table_view(tab@)), name@);
            }
            match find_fn(&tab, name.as_str()) {
                Some(k) => {
                    tab[k] = info;
                    proof {
                        assert(table_view(tab@) =~= table_view(before).update(k as int, info_view(tab@[k as int])));
                        assert forall|k2: int| 0 <= k2 < tab@.len() implies info_ok(#[trigger] tab@[k2]) by {
                            if k2 != k {
                                assert(tab@[k2] == before[k2]);
                            }
                        }
                    }
                },
                None => {
                    tab.push(info);
                    proof {
                        assert(table_view(tab@) =~= table_view(before).push(info_view(tab@[before.len() as int])));
                        assert forall|k2: int| 0 <= k2 < tab@.len() implies info_ok(#[trigger] tab@[k2]) by {
                            if k2 < before.len() {
                                assert(tab@[k2] == before[k2]);
                            }
                        }
                    }
                },
            }
        }
        i += 1;
    }
    assert(vv.take(instrs.len() as int) == vv);
    tab
}

/// Whether `cap` is a capture of the callee `g`, in the current sets.
pub open spec fn from_callee(caps: Seq<Set<Seq<char>>>, t: Seq<FnFacts>, g: Seq<char>, cap: Seq<char>) -> bool {
    match find_name(fact_names(t), g) {
        Some(idx) => caps[idx].contains(cap),
        None => false,
    }
}

/// Whether the `k`-th function gets `cap` from one of its callees: the callee captures
/// it and the function does not define it itself.
pub open spec fn reached(caps: Seq<Set<Seq<char>>>, t: Seq<FnFacts>, k: int, cap: Seq<char>) -> bool {
    !t[k].defined.contains(cap) && exists|g: Seq<char>| #[trigger] t[k].calls.contains(g) && from_callee(caps, t, g, cap)
}

/// One round: each function adds what it gets from its callees, as the sets were
/// before the round.
pub open spec fn step(caps: Seq<Set<Seq<char>>>, t: Seq<FnFacts>) -> Seq<Set<Seq<char>>> {
    Seq::new(caps.len(), |k: int| caps[k].union(Set::new(|cap: Seq<char>| reached(caps, t, k, cap))))
}

/// The sets after `n` rounds.
pub open spec fn iterate(caps: Seq<Set<Seq<char>>>, t: Seq<FnFacts>, n: nat) -> Seq<Set<Seq<char>>>
    decreases n,
{
    if n == 0 {
        caps
    } else {
        step(iterate(caps, t, (n - 1) as nat), t)
    }
}

/// What each function captures by itself.
pub open spec fn init_caps(t: Seq<FnFacts>) -> Seq<Set<Seq<char>>> {
    t.map_values(|e: FnFacts| e.caps)
}

pub open spec fn is_fixed(t: Seq<FnFacts>, n: nat) -> bool {
    step(iterate(init_caps(t), t, n), t) == iterate(init_caps(t), t, n)
}

/// The captures of each function, once no round adds anything.
pub open spec fn closure(t: Seq<FnFacts>) -> Seq<Set<Seq<char>>> {
    iterate(init_caps(t), t, choose|n: nat| is_fixed(t, n))
}

proof fn lemma_iterate_stays(t: Seq<FnFacts>, n: nat, d: nat)
    requires
        is_fixed(t, n),
    ensures
        iterate(init_caps(t), t, n + d) == iterate(init_caps(t), t, n),
    decreases d,
{
    if d > 0 {
        lemma_iterate_stays(t, n, (d - 1) as nat);
        assert(iterate(init_caps(t), t, n + d) == step(iterate(init_caps(t), t, (n + d - 1) as nat), t));
    }
}

/// Once a round adds nothing, the sets are the closure.
proof fn lemma_closure(t: Seq<FnFacts>, n: nat)
    requires
        is_fixed(t, n),
    ensures
        closure(t) == iterate(init_caps(t), t, n),
{
    let m = choose|m: nat| is_fixed(t, m);
    assert(is_fixed(t, m));
    if m <= n {
        lemma_iterate_stays(t, m, (n - m) as nat);
    } else {
        lemma_iterate_stays(t, n, (m - n) as nat);
    }
}

spec fn caps_view(c: Seq<Vec<String>>) -> Seq<Set<Seq<char>>> {
    c.map_values(|v: Vec<String>| set_of(v@))
}

spec fn caps_ok(c: Seq<Vec<String>>) -> bool {
    forall|k: int| 0 <= k < c.len() ==> sv(#[trigger] c[k]@).no_duplicates()
}

/// Every string of the sets.
spec fn union_all(c: Seq<Set<Seq<char>>>) -> Set<Seq<char>>
    decreases c.len(),
{
    if c.len() == 0 {
        Set::empty()
    } else {
        union_all(c.drop_last()).union(c.last())
    }
}

proof fn lemma_union_all(c: Seq<Set<Seq<char>>>)
    requires
        forall|k: int| 0 <= k < c.len() ==> (#[trigger] c[k]).finite(),
    ensures
        union_all(c).finite(),
        forall|k: int| 0 <= k < c.len() ==> (#[trigger] c[k]).subset_of(union_all(c)),
    decreases c.len(),
{
    if c.len() > 0 {
        lemma_union_all(c.drop_last());
        assert forall|k: int| 0 <= k < c.len() implies (#[trigger] c[k]).subset_of(union_all(c)) by {
            if k < c.len() - 1 {
                assert(c.drop_last()[k] == c[k]);
            }
        }
    }
}

/// How far the sets are from holding all of `u`.
spec fn distance(c: Seq<Set<Seq<char>>>, u: Set<Seq<char>>) -> int
    decreases c.len(),
{
    if c.len() == 0 {
        0
    } else {
        distance(c.drop_last(), u) + (u.len() - c.last().len())
    }
}

proof fn lemma_distance(c1: Seq<Set<Seq<char>>>, c2: Seq<Set<Seq<char>>>, u: Set<Seq<char>>)
    requires
        u.finite(),
        c1.len() == c2.len(),
        forall|k: int| 0 <= k < c1.len() ==> (#[trigger] c1[k]).subset_of(c2[k]),
        forall|k: int| 0 <= k < c2.len() ==> (#[trigger] c2[k]).subset_of(u),
    ensures
        0 <= distance(c2, u) <= distance(c1, u),
        c1 != c2 ==> distance(c2, u) < distance(c1, u),
    decreases c1.len(),
{
    if c1.len() == 0 {
        assert(c1 =~= c2);
    } else {
        let n = c1.len() - 1;
        lemma_distance(c1.drop_last(), c2.drop_last(), u);
        assert(distance(c1, u) == distance(c1.drop_last(), u) + (u.len() - c1[n].len()));
        assert(distance(c2, u) == distance(c2.drop_last(), u) + (u.len() - c2[n].len()));
        vstd::set_lib::lemma_len_subset(c2[n], u);
        vstd::set_lib::lemma_len_subset(c1[n], c2[n]);
        if c1[n] != c2[n] {
            assert(exists|x: Seq<char>| c2[n].contains(x) && !c1[n].contains(x)) by {
                if forall|x: Seq<char>| c2[n].contains(x) ==> c1[n].contains(x) {
                    assert(c1[n] =~= c2[n]);
                }
            }
            let x = choose|x: Seq<char>| c2[n].contains(x) && !c1[n].contains(x);
            assert(c1[n].subset_of(c2[n].remove(x)));
            vstd::set_lib::lemma_len_subset(c1[n], c2[n].remove(x));
            assert(c2[n].remove(x).len() == c2[n].len() - 1);
            assert(c1[n].len() < c2[n].len());
            assert(distance(c2, u) < distance(c1, u));
        } else if c1 != c2 {
            assert(c1.drop_last() != c2.drop_last()) by {
                if c1.drop_last() == c2.drop_last() {
                    assert(c1 =~= c1.drop_last().push(c1[n]));
                    assert(c2 =~= c2.drop_last().push(c2[n]));
                }
            }
            assert(distance(c2, u) < distance(c1, u));
        }
    }
}

proof fn lemma_step_grows(c: Seq<Set<Seq<char>>>, t: Seq<FnFacts>, u: Set<Seq<char>>)
    requires
        c.len() == t.len(),
        forall|k: int| 0 <= k < c.len() ==> (#[trigger] c[k]).subset_of(u),
    ensures
        step(c, t).len() == c.len(),
        forall|k: int| 0 <= k < c.len() ==> (#[trigger] c[k]).subset_of(step(c, t)[k]),
        forall|k: int| 0 <= k < c.len() ==> (#[trigger] step(c, t)[k]).subset_of(u),
{
    assert forall|k: int| 0 <= k < c.len() implies (#[trigger] step(c, t)[k]).subset_of(u) by {
        assert forall|x: Seq<char>| step(c, t)[k].contains(x) implies u.contains(x) by {
            if !c[k].contains(x) {
                assert(reached(c, t, k, x));
                let g = choose|g: Seq<char>| #[trigger] t[k].calls.contains(g) && from_callee(c, t, g, x);
                lemma_find_name(fact_names(t), g);
                let idx = find_name(fact_names(t), g)->0;
                assert(c[idx].contains(x));
            }
        }
    }
}

/// The rounds keep the sets within every string that the functions capture by
/// themselves.
proof fn lemma_iterate_bounded(t: Seq<FnFacts>, n: nat)
    requires
        forall|k: int| 0 <= k < t.len() ==> (#[trigger] t[k].caps).finite(),
    ensures
        union_all(init_caps(t)).finite(),
        iterate(init_caps(t), t, n).len() == t.len(),
        forall|k: int| 0 <= k < t.len() ==> (#[trigger] iterate(init_caps(t), t, n)[k]).subset_of(union_all(init_caps(t))),
    decreases n,
{
    let u = union_all(init_caps(t));
    assert forall|k: int| 0 <= k < init_caps(t).len() implies (#[trigger] init_caps(t)[k]).finite() by {
        assert(init_caps(t)[k] == t[k].caps);
    }
    lemma_union_all(init_caps(t));
    if n > 0 {
        lemma_iterate_bounded(t, (n - 1) as nat);
        lemma_step_grows(iterate(init_caps(t), t, (n - 1) as nat), t, u);
    }
}

/// Some round adds nothing.
proof fn lemma_fixed_exists(t: Seq<FnFacts>, n: nat)
    requires
        forall|k: int| 0 <= k < t.len() ==> (#[trigger] t[k].caps).finite(),
    ensures
        exists|m: nat| is_fixed(t, m),
    decreases distance(iterate(init_caps(t), t, n), union_all(init_caps(t))),
{
    let u = union_all(init_caps(t));
    let c = iterate(init_caps(t), t, n);
    lemma_iterate_bounded(t, n);
    lemma_step_grows(c, t, u);
    lemma_distance(c, step(c, t), u);
    if !is_fixed(t, n) {
        assert(iterate(init_caps(t), t, n + 1) == step(c, t));
        lemma_fixed_exists(t, n + 1);
    }
}

/// The captures that the analysis settles on are closed: each function keeps what it
/// captures by itself, and gets each register that a function it calls captures and
/// that it does not define itself; a further round adds nothing.
pub proof fn law_capture_closed(t: Seq<FnFacts>)
    requires
        forall|k: int| 0 <= k < t.len() ==> (#[trigger] t[k].caps).finite(),
    ensures
        closure(t).len() == t.len(),
        step(closure(t), t) == closure(t),
        forall|k: int| 0 <= k < t.len() ==> (#[trigger] t[k].caps).subset_of(closure(t)[k]),
        forall|k: int, g: Seq<char>, cap: Seq<char>|
            0 <= k < t.len() && #[trigger] t[k].calls.contains(g) && !t[k].defined.contains(cap) && #[trigger] from_callee(
                closure(t),
                t,
                g,
                cap,
            ) ==> closure(t)[k].contains(cap),
{
    lemma_fixed_exists(t, 0);
    let n = choose|n: nat| is_fixed(t, n);
    lemma_closure(t, n);
    lemma_iterate_bounded(t, n);
    lemma_caps_grow(t, n);
    let c = closure(t);
    assert forall|k: int, g: Seq<char>, cap: Seq<char>|
        0 <= k < t.len() && #[trigger] t[k].calls.contains(g) && !t[k].defined.contains(cap) && #[trigger] from_callee(
            c,
            t,
            g,
            cap,
        ) implies c[k].contains(cap) by {
        assert(reached(c, t, k, cap));
        assert(step(c, t)[k].contains(cap));
    }
}

/// What a function captures by itself stays through the rounds.
proof fn lemma_caps_grow(t: Seq<FnFacts>, n: nat)
    ensures
        iterate(init_caps(t), t, n).len() == t.len(),
        forall|k: int| 0 <= k < t.len() ==> (#[trigger] t[k].caps).subset_of(iterate(init_caps(t), t, n)[k]),
    decreases n,
{
    if n > 0 {
        lemma_caps_grow(t, (n - 1) as nat);
    }
}

/// The captures that the analysis settles on are the least closed ones: any sets that
/// hold what each function captures by itself, and what it gets from the functions it
/// calls, hold them.
pub proof fn law_capture_least(t: Seq<FnFacts>, c: Seq<Set<Seq<char>>>)
    requires
        forall|k: int| 0 <= k < t.len() ==> (#[trigger] t[k].caps).finite(),
        c.len() == t.len(),
        forall|k: int| 0 <= k < t.len() ==> (#[trigger] t[k].caps).subset_of(c[k]),
        forall|k: int, cap: Seq<char>| 0 <= k < t.len() && #[trigger] reached(c, t, k, cap) ==> c[k].contains(cap),
    ensures
        forall|k: int| 0 <= k < t.len() ==> (#[trigger] closure(t)[k]).subset_of(c[k]),
{
    lemma_fixed_exists(t, 0);
    let n = choose|n: nat| is_fixed(t, n);
    lemma_closure(t, n);
    lemma_iterate_below(t, c, n);
}

proof fn lemma_iterate_below(t: Seq<FnFacts>, c: Seq<Set<Seq<char>>>, n: nat)
    requires
        c.len() == t.len(),
        forall|k: int| 0 <= k < t.len() ==> (#[trigger] t[k].caps).subset_of(c[k]),
        forall|k: int, cap: Seq<char>| 0 <= k < t.len() && #[trigger] reached(c, t, k, cap) ==> c[k].contains(cap),
    ensures
        iterate(init_caps(t), t, n).len() == t.len(),
        forall|k: int| 0 <= k < t.len() ==> (#[trigger] iterate(init_caps(t), t, n)[k]).subset_of(c[k]),
    decreases n,
{
    if n > 0 {
        let p = iterate(init_caps(t), t, (n - 1) as nat);
        lemma_iterate_below(t, c, (n - 1) as nat);
        assert forall|k: int| 0 <= k < t.len() implies (#[trigger] step(p, t)[k]).subset_of(c[k]) by {
            assert forall|x: Seq<char>| step(p, t)[k].contains(x) implies c[k].contains(x) by {
                if !p[k].contains(x) {
                    assert(reached(p, t, k, x));
                    let g = choose|g: Seq<char>| #[trigger] t[k].calls.contains(g) && from_callee(p, t, g, x);
                    lemma_find_name(fact_names(t), g);
                    let idx = find_name(fact_names(t), g)->0;
                    assert(p[idx].contains(x));
                    assert(from_callee(c, t, g, x));
                    assert(reached(c, t, k, x));
                }
            }
        }
    }
}

/// One round on the sets of `caps`, and whether it added anything.
fn step_once(tab: &Vec<FnInfo>, caps: &Vec<Vec<String>>) -> (r: (Vec<Vec<String>>, bool))
    requires
        caps.len() == tab.len(),
        caps_ok(caps@),
        table_ok(tab@),
    ensures
        r.0.len() == caps.len(),
        caps_ok(r.0@),
        caps_view(r.0@) == step(caps_view(caps@), table_view(tab@)),
        r.1 == (step(caps_view(caps@), table_view(tab@)) != caps_view(caps@)),
{
    let ghost t = table_view(tab@);
    let ghost cv = caps_view(caps@);
    let ghost st = step(cv, t);
    let mut next: Vec<Vec<String>> = Vec::new();
    let mut change = false;
    let mut k: usize = 0;
    while k < tab.len()
        invariant
            t == table_view(tab@),
            cv == caps_view(caps@),
            st == step(cv, t),
            caps.len() == tab.len(),
            caps_ok(caps@),
            table_ok(tab@),
            k <= tab.len(),
            next.len() == k,
            caps_ok(next@),
            forall|k2: int| 0 <= k2 < k ==> #[trigger] caps_view(next@)[k2] == st[k2],
            change == exists|k2: int| 0 <= k2 < k && #[trigger] st[k2] != cv[k2],
        decreases tab.len() - k,
    {
        let info = &tab[k];
        assert(cv[k as int] == set_of(caps@[k as int]@));
        let mut set_k = unique_copy(&caps[k]);
        let ghost def_k = set_of(info.defined@);
        let ghost calls_k = sv(info.calls@);
        let mut ck = false;
        let mut j: usize = 0;
        while j < info.calls.len()
            invariant
                t == table_view(tab@),
                cv == caps_view(caps@),
                cv[k as int] == set_of(caps@[k as int]@),
                caps.len() == tab.len(),
                caps_ok(caps@),
                table_ok(tab@),
                k < tab.len(),
                info == &tab[k as int],
                def_k == set_of(info.defined@),
                calls_k == sv(info.calls@),
                j <= info.calls.len(),
                sv(set_k@).no_duplicates(),
                set_of(set_k@) == cv[k as int].union(Set::new(|cap: Seq<char>| !def_k.contains(cap) && exists|jj: int|
                    0 <= jj < j && #[trigger] from_callee(cv, t, calls_k[jj], cap))),
                ck == exists|x: Seq<char>| #[trigger] set_of(set_k@).contains(x) && !cv[k as int].contains(x),
            decreases info.calls.len() - j,
        {
            let ghost before = set_of(set_k@);
            match find_fn(tab, info.calls[j].as_str()) {
                Some(g) => {
                    proof {
                        lemma_find_name(fact_names(t), calls_k[j as int]);
                    }
                    let callee = &caps[g];
                    let mut m: usize = 0;
                    while m < callee.len()
                        invariant
                            cv == caps_view(caps@),
                            caps.len() == tab.len(),
                            g < caps.len(),
                            callee == &caps[g as int],
                            k < tab.len(),
                            info == &tab[k as int],
                            def_k == set_of(info.defined@),
                            m <= callee.len(),
                            sv(set_k@).no_duplicates(),
                            set_of(set_k@) == before.union(Set::new(|cap: Seq<char>| !def_k.contains(cap)
                                && sv(callee@).take(m as int).contains(cap))),
                            ck == exists|x: Seq<char>| #[trigger] set_of(set_k@).contains(x) && !cv[k as int].contains(x),
                            before.subset_of(set_of(set_k@)),
                            cv[k as int].subset_of(before),
                            cv[k as int] == set_of(caps@[k as int]@),
                        decreases callee.len() - m,
                    {
                        let cap = &callee[m];
                        let ghost b2 = set_of(set_k@);
                        let ghost pre = sv(callee@).take(m as int);
                        proof {
                            assert(sv(callee@).take(m + 1) =~= pre.push(cap@));
                            lemma_push_to_set(pre, cap@);
                            assert forall|c: Seq<char>| sv(callee@).take(m + 1).contains(c) <==> (pre.contains(c) || c == cap@) by {
                                assert(sv(callee@).take(m + 1).to_set().contains(c) == sv(callee@).take(m + 1).contains(c));
                                assert(pre.to_set().contains(c) == pre.contains(c));
                            }
                        }
                        if !holds(&info.defined, cap.as_str()) && !holds(&caps[k], cap.as_str()) {
                            add_unique(&mut set_k, cap.clone());
                            ck = true;
                            assert(set_of(set_k@).contains(cap@) && !cv[k as int].contains(cap@));
                        }
                        proof {
                            let target = before.union(Set::new(|d: Seq<char>| !def_k.contains(d)
                                && sv(callee@).take(m + 1).contains(d)));
                            assert forall|c: Seq<char>| set_of(set_k@).contains(c) implies target.contains(c) by {
                                if b2.contains(c) {
                                    if !before.contains(c) {
                                        assert(!def_k.contains(c) && pre.contains(c));
                                        assert(sv(callee@).take(m + 1).contains(c));
                                    }
                                } else {
                                    assert(c == cap@);
                                    assert(!def_k.contains(c));
                                    assert(sv(callee@).take(m + 1).contains(c));
                                }
                            }
                            assert forall|c: Seq<char>| target.contains(c) implies set_of(set_k@).contains(c) by {
                                if !before.contains(c) {
                                    assert(!def_k.contains(c) && sv(callee@).take(m + 1).contains(c));
                                    if c == cap@ {
                                        if cv[k as int].contains(c) {
                                            assert(before.contains(c));
                                        }
                                    } else {
                                        assert(pre.contains(c));
                                        assert(b2.contains(c));
                                    }
                                }
                            }
                            assert(set_of(set_k@) =~= target);
                        }
                        m += 1;
                    }
                    proof {
                        assert(sv(callee@).take(callee.len() as int) == sv(callee@));
                        assert(set_of(set_k@) =~= cv[k as int].union(Set::new(|cap: Seq<char>| !def_k.contains(cap) && exists|jj: int|
                            0 <= jj < j + 1 && #[trigger] from_callee(cv, t, calls_k[jj], cap)))) by {
                            assert forall|cap: Seq<char>| #[trigger] set_of(set_k@).contains(cap) implies cv[k as int].union(
                                Set::new(|c: Seq<char>| !def_k.contains(c) && exists|jj: int| 0 <= jj < j + 1 && #[trigger] from_callee(cv, t, calls_k[jj], c)),
                            ).contains(cap) by {
                                if !before.contains(cap) {
                                    assert(sv(callee@).contains(cap));
                                    assert(from_callee(cv, t, calls_k[j as int], cap));
                                } else if !cv[k as int].contains(cap) {
                                    let jj = choose|jj: int| 0 <= jj < j && #[trigger] from_callee(cv, t, calls_k[jj], cap);
                                    assert(from_callee(cv, t, calls_k[jj], cap));
                                }
                            }
                            assert forall|cap: Seq<char>| cv[k as int].union(
                                Set::new(|c: Seq<char>| !def_k.contains(c) && exists|jj: int| 0 <= jj < j + 1 && #[trigger] from_callee(cv, t, calls_k[jj], c)),
                            ).contains(cap) implies #[trigger] set_of(set_k@).contains(cap) by {
                                if !cv[k as int].contains(cap) {
                                    let jj = choose|jj: int| 0 <= jj < j + 1 && #[trigger] from_callee(cv, t, calls_k[jj], cap);
                                    if jj == j {
                                        assert(sv(callee@).contains(cap));
                                    } else {
                                        assert(before.contains(cap));
                                    }
                                }
                            }
                        }
                    }
                },
                None => {
                    proof {
                        assert(set_of(set_k@) =~= cv[k as int].union(Set::new(|cap: Seq<char>| !def_k.contains(cap) && exists|jj: int|
                            0 <= jj < j + 1 && #[trigger] from_callee(cv, t, calls_k[jj], cap)))) by {
                            assert forall|cap: Seq<char>| cv[k as int].union(
                                Set::new(|c: Seq<char>| !def_k.contains(c) && exists|jj: int| 0 <= jj < j + 1 && #[trigger] from_callee(cv, t, calls_k[jj], c)),
                            ).contains(cap) implies #[trigger] set_of(set_k@).contains(cap) by {
                                if !cv[k as int].contains(cap) {
                                    let jj = choose|jj: int| 0 <= jj < j + 1 && #[trigger] from_callee(cv, t, calls_k[jj], cap);
                                    assert(jj != j);
                                }
                            }
                        }
                    }
                },
            }
            j += 1;
        }
        proof {
            assert(set_of(set_k@) =~= st[k as int]) by {
                assert forall|cap: Seq<char>| reached(cv, t, k as int, cap) <==> (!def_k.contains(cap) && exists|jj: int|
                    0 <= jj < calls_k.len() && #[trigger] from_callee(cv, t, calls_k[jj], cap)) by {
                    if reached(cv, t, k as int, cap) {
                        let g = choose|g: Seq<char>| #[trigger] t[k as int].calls.contains(g) && from_callee(cv, t, g, cap);
                        assert(calls_k.to_set().contains(g));
                        let jj = choose|jj: int| 0 <= jj < calls_k.len() && calls_k[jj] == g;
                        assert(from_callee(cv, t, calls_k[jj], cap));
                    }
                    if !def_k.contains(cap) && exists|jj: int| 0 <= jj < calls_k.len() && #[trigger] from_callee(cv, t, calls_k[jj], cap) {
                        let jj = choose|jj: int| 0 <= jj < calls_k.len() && #[trigger] from_callee(cv, t, calls_k[jj], cap);
                        assert(t[k as int].calls.contains(calls_k[jj]));
                    }
                }
            }
            if ck {
                assert(st[k as int] != cv[k as int]) by {
                    let x = choose|x: Seq<char>| #[trigger] set_of(set_k@).contains(x) && !cv[k as int].contains(x);
                    assert(st[k as int].contains(x));
                }
            } else {
                assert(st[k as int] =~= cv[k as int]);
            }
        }
        let ghost before_next = next@;
        next.push(set_k);
        change = change || ck;
        proof {
            assert(caps_view(next@)[k as int] == st[k as int]);
            assert forall|k2: int| 0 <= k2 < k + 1 implies #[trigger] caps_view(next@)[k2] == st[k2] by {
                if k2 < k {
                    assert(next@[k2] == before_next[k2]);
                    assert(caps_view(before_next)[k2] == st[k2]);
                }
            }
        }
        k += 1;
    }
    proof {
        assert(caps_view(next@) =~= st);
        if !change {
            assert(st =~= cv);
        }
    }
    (next, change)
}

/// The captures of each function: the sets grow round by round until a round adds
/// nothing.
fn fixed_point(tab: &Vec<FnInfo>) -> (r: Vec<Vec<String>>)
    requires
        table_ok(tab@),
    ensures
        r.len() == tab.len(),
        caps_ok(r@),
        caps_view(r@) == closure(table_view(tab@)),
{
    let ghost t = table_view(tab@);
    let mut caps: Vec<Vec<String>> = Vec::new();
    let mut k: usize = 0;
    while k < tab.len()
        invariant
            t == table_view(tab@),
            table_ok(tab@),
            k <= tab.len(),
            caps.len() == k,
            caps_ok(caps@),
            forall|k2: int| 0 <= k2 < k ==> #[trigger] caps_view(caps@)[k2] == init_caps(t)[k2],
        decreases tab.len() - k,
    {
        let ghost before_caps = caps@;
        caps.push(unique_copy(&tab[k].caps));
        proof {
            assert forall|k2: int| 0 <= k2 < k + 1 implies #[trigger] caps_view(caps@)[k2] == init_caps(t)[k2] by {
                if k2 < k {
                    assert(caps@[k2] == before_caps[k2]);
                    assert(caps_view(before_caps)[k2] == init_caps(t)[k2]);
                }
            }
        }
        k += 1;
    }
    let ghost u = union_all(init_caps(t));
    proof {
        assert(caps_view(caps@) =~= init_caps(t));
        assert forall|k2: int| 0 <= k2 < init_caps(t).len() implies (#[trigger] init_caps(t)[k2]).finite() by {
            assert(init_caps(t)[k2] == sv(tab@[k2].caps@).to_set());
        }
        lemma_union_all(init_caps(t));
    }
    let ghost mut n: nat = 0;
    loop
        invariant
            t == table_view(tab@),
            table_ok(tab@),
            u.finite(),
            caps.len() == tab.len(),
            caps_ok(caps@),
            caps_view(caps@) == iterate(init_caps(t), t, n),
            forall|k2: int| 0 <= k2 < caps.len() ==> (#[trigger] caps_view(caps@)[k2]).subset_of(u),
        decreases distance(caps_view(caps@), u),
    {
        let (next, change) = step_once(tab, &caps);
        proof {
            lemma_step_grows(caps_view(caps@), t, u);
            lemma_distance(caps_view(caps@), caps_view(next@), u);
        }
        if !change {
            proof {
                lemma_closure(t, n);
            }
            return caps;
        }
        proof {
            n = n + 1;
        }
        caps = next;
    }
}


/// The captures of the function `name` in increasing order; none where no function of
/// the top level has that name.
pub open spec fn caps_for(t: Seq<FnFacts>, r: Seq<Set<Seq<char>>>, name: Seq<char>) -> Seq<Seq<char>> {
    match find_name(fact_names(t), name) {
        Some(idx) => sorted_of(r[idx]),
        None => Seq::empty(),
    }
}

/// The registers of the given names, as operands.
pub open spec fn regs_of(s: Seq<Seq<char>>) -> Seq<OperandV> {
    s.map_values(|c: Seq<char>| OperandV::Reg(c))
}

/// A call that passes, after its own arguments, the captures of its callee; any other
/// instruction unchanged.
pub open spec fn call_with_caps(i: InstrV, t: Seq<FnFacts>, r: Seq<Set<Seq<char>>>) -> InstrV {
    match i {
        InstrV::Call { dest, name, args } => InstrV::Call { dest, name, args: args + regs_of(caps_for(t, r, name)) },
        _ => i,
    }
}

/// An instruction of the top level once the captures are passed: a call passes the
/// captures of its callee; a function takes its own captures as parameters after its
/// own, and each call directly in its body passes the captures of its callee.
pub open spec fn with_caps(i: InstrV, t: Seq<FnFacts>, r: Seq<Set<Seq<char>>>) -> InstrV {
    match i {
        InstrV::FnDecl { name, params, body } => InstrV::FnDecl {
            name,
            params: params + caps_for(t, r, name),
            body: body.map_values(|b: InstrV| call_with_caps(b, t, r)),
        },
        _ => call_with_caps(i, t, r),
    }
}

/// The program once each function gets what it captures, directly or through the
/// functions that it calls.
pub open spec fn captured(s: Seq<InstrV>) -> Seq<InstrV> {
    s.map_values(|i: InstrV| with_caps(i, fn_entries(s), closure(fn_entries(s))))
}

/// The captures of the function `name`, in increasing order.
fn get_sorted_caps(tab: &Vec<FnInfo>, caps: &Vec<Vec<String>>, name: &str) -> (r: Vec<String>)
    requires
        caps.len() == tab.len(),
        caps_ok(caps@),
    ensures
        sv(r@) == caps_for(table_view(tab@), caps_view(caps@), name@),
{
    proof {
        lemma_find_name(fact_names(table_view(tab@)), name@);
    }
    match find_fn(tab, name) {
        Some(g) => {
            let r = sort_strings(&caps[g]);
            proof {
                lemma_sorted_of(sv(r@));
                assert(caps_view(caps@)[g as int] == set_of(caps@[g as int]@));
            }
            r
        },
        None => {
            let r: Vec<String> = Vec::new();
            assert(sv(r@) =~= Seq::<Seq<char>>::empty());
            r
        },
    }
}

/// The arguments followed by the registers `regs`.
fn args_with(args: &Vec<Operand>, regs: &Vec<String>) -> (r: Vec<Operand>)
    ensures
        ir::operands_view(r@) == ir::operands_view(args@) + regs_of(sv(regs@)),
{
    let mut r = ir::copy_operands(args);
    let ghost a0 = ir::operands_view(args@);
    let mut i: usize = 0;
    while i < regs.len()
        invariant
            i <= regs.len(),
            ir::operands_view(r@) == a0 + regs_of(sv(regs@)).take(i as int),
        decreases regs.len() - i,
    {
        let ghost before = r@;
        r.push(Operand::Reg(regs[i].clone()));
        proof {
            assert(ir::operands_view(r@) =~= ir::operands_view(before).push(OperandV::Reg(sv(regs@)[i as int])));
            assert(regs_of(sv(regs@)).take(i + 1) =~= regs_of(sv(regs@)).take(i as int).push(
                OperandV::Reg(sv(regs@)[i as int]),
            ));
            assert(ir::operands_view(r@) =~= a0 + regs_of(sv(regs@)).take(i + 1));
        }
        i += 1;
    }
    assert(regs_of(sv(regs@)).take(regs.len() as int) =~= regs_of(sv(regs@)));
    r
}

/// The names followed by the names `more`.
fn names_with(names: &Vec<String>, more: &Vec<String>) -> (r: Vec<String>)
    ensures
        sv(r@) == sv(names@) + sv(more@),
{
    let mut r = ir::copy_strings(names);
    let ghost n0 = sv(names@);
    let mut i: usize = 0;
    while i < more.len()
        invariant
            i <= more.len(),
            sv(r@) == n0 + sv(more@).take(i as int),
        decreases more.len() - i,
    {
        let ghost before = r@;
        r.push(more[i].clone());
        proof {
            assert(sv(r@) =~= sv(before).push(sv(more@)[i as int]));
            assert(sv(r@) =~= n0 + sv(more@).take(i + 1));
        }
        i += 1;
    }
    assert(sv(more@).take(more.len() as int) =~= sv(more@));
    r
}

/// A copy of the instruction in which a call passes the captures of its callee.
fn copy_call_with_caps(i: &Instr, tab: &Vec<FnInfo>, caps: &Vec<Vec<String>>) -> (r: Instr)
    requires
        caps.len() == tab.len(),
        caps_ok(caps@),
    ensures
        r@ == call_with_caps(i@, table_view(tab@), caps_view(caps@)),
{
    match i {
        Instr::Call { dest, name, args } => {
            let extra = get_sorted_caps(tab, caps, name.as_str());
            Instr::Call { dest: dest.clone(), name: name.clone(), args: args_with(args, &extra) }
        },
        _ => i.deep_copy(),
    }
}

/// A copy of the instruction of the top level once the captures are passed.
fn copy_with_caps(i: &Instr, tab: &Vec<FnInfo>, caps: &Vec<Vec<String>>) -> (r: Instr)
    requires
        caps.len() == tab.len(),
        caps_ok(caps@),
    ensures
        r@ == with_caps(i@, table_view(tab@), caps_view(caps@)),
{
    let ghost t = table_view(tab@);
    let ghost c = caps_view(caps@);
    match i {
        Instr::FnDecl { name, params, body } => {
            let extra = get_sorted_caps(tab, caps, name.as_str());
            let new_params = names_with(params, &extra);
            let ghost bv = ir::instrs_view(body@);
            proof {
                ir::lemma_instrs_view(body@);
            }
            let mut new_body: Vec<Instr> = Vec::new();
            let mut j: usize = 0;
            while j < body.len()
                invariant
                    caps.len() == tab.len(),
                    caps_ok(caps@),
                    t == table_view(tab@),
                    c == caps_view(caps@),
                    bv == ir::instrs_view(body@),
                    bv.len() == body.len(),
                    forall|k: int| 0 <= k < body.len() ==> #[trigger] bv[k] == ir::instr_view(body@[k]),
                    j <= body.len(),
                    ir::instrs_view(new_body@) == bv.take(j as int).map_values(|b: InstrV| call_with_caps(b, t, c)),
                decreases body.len() - j,
            {
                let x = copy_call_with_caps(&body[j], tab, caps);
                proof {
                    ir::lemma_instrs_view_push(new_body@, x);
                    assert(bv.take(j + 1).map_values(|b: InstrV| call_with_caps(b, t, c)) =~= bv.take(
                        j as int,
                    ).map_values(|b: InstrV| call_with_caps(b, t, c)).push(call_with_caps(bv[j as int], t, c)));
                }
                new_body.push(x);
                j += 1;
            }
            assert(bv.take(body.len() as int) =~= bv);
            Instr::FnDecl { name: name.clone(), params: new_params, body: new_body }
        },
        _ => copy_call_with_caps(i, tab, caps),
    }
}

/// Gives each function of the top level the registers of enclosing functions that it
/// reads, or that the functions it calls read, as extra parameters, in increasing
/// order; each call passes them along.
pub fn capture(instrs: &mut [Instr])
    ensures
        ir::instrs_view(final(instrs)@) == captured(ir::instrs_view(old(instrs)@)),
{
    let ghost v0 = ir::instrs_view(instrs@);
    let tab = build_table(instrs);
    let caps = fixed_point(&tab);
    let ghost t = table_view(tab@);
    let ghost c = caps_view(caps@);
    proof {
        ir::lemma_instrs_view(instrs@);
    }
    let mut i: usize = 0;
    while i < instrs.len()
        invariant
            caps.len() == tab.len(),
            caps_ok(caps@),
            t == table_view(tab@),
            c == caps_view(caps@),
            t == fn_entries(v0),
            c == closure(t),
            v0.len() == instrs@.len(),
            i <= instrs@.len(),
            forall|k: int| 0 <= k < instrs@.len() ==> #[trigger] ir::instr_view(instrs@[k]) == if k < i {
                with_caps(v0[k], t, c)
            } else {
                v0[k]
            },
        decreases instrs@.len() - i,
    {
        let x = copy_with_caps(&instrs[i], &tab, &caps);
        instrs[i] = x;
        i += 1;
    }
    proof {
        ir::lemma_instrs_view(instrs@);
        assert(ir::instrs_view(instrs@) =~= captured(v0));
    }
}


/// Each call, at the top level or in the body of a function of the top level, passes
/// after its own arguments exactly the registers that the function it names takes after
/// its own parameters.
pub proof fn law_capture_calls_match(s: Seq<InstrV>, i: int, j: int)
    requires
        0 <= i < s.len(),
        0 <= j < s.len(),
        s[i] is FnDecl,
    ensures
        ({
            let f = s[i]->FnDecl_name;
            let extra = caps_for(fn_entries(s), closure(fn_entries(s)), f);
            &&& captured(s)[i] is FnDecl
            &&& captured(s)[i]->FnDecl_name == f
            &&& captured(s)[i]->FnDecl_params == s[i]->FnDecl_params + extra
            &&& (s[j] is Call && s[j]->Call_name == f ==> captured(s)[j] is Call
                && captured(s)[j]->Call_args == s[j]->Call_args + regs_of(extra))
            &&& (s[j] is FnDecl ==> forall|k: int|
                0 <= k < s[j]->FnDecl_body.len() && (#[trigger] s[j]->FnDecl_body[k]) is Call && s[j]->FnDecl_body[k]->Call_name == f
                    ==> captured(s)[j]->FnDecl_body[k] is Call
                    && captured(s)[j]->FnDecl_body[k]->Call_args == s[j]->FnDecl_body[k]->Call_args + regs_of(extra))
        }),
{
}


/// A finite set of strings that is not empty has a least string.
proof fn lemma_least(s: Set<Seq<char>>) -> (m: Seq<char>)
    requires
        s.finite(),
        s.len() > 0,
    ensures
        s.contains(m),
        forall|x: Seq<char>| #[trigger] s.contains(x) && x != m ==> str_lt(m, x),
    decreases s.len(),
{
    let a = s.choose();
    let rest = s.remove(a);
    if rest.len() == 0 {
        assert forall|x: Seq<char>| #[trigger] s.contains(x) && x != a implies str_lt(a, x) by {
            assert(rest.contains(x));
        }
        a
    } else {
        let m = lemma_least(rest);
        if str_lt(a, m) {
            assert forall|x: Seq<char>| #[trigger] s.contains(x) && x != a implies str_lt(a, x) by {
                assert(rest.contains(x));
                if x != m {
                    lemma_str_lt_trans(a, m, x);
                }
            }
            a
        } else {
            lemma_str_lt_total(a, m);
            m
        }
    }
}

/// Every finite set of strings has an increasing sequence of its strings.
proof fn lemma_sorted_exists(s: Set<Seq<char>>)
    requires
        s.finite(),
    ensures
        sorted_strict(sorted_of(s)),
        sorted_of(s).to_set() == s,
    decreases s.len(),
{
    if s.len() == 0 {
        let q = Seq::<Seq<char>>::empty();
        assert(q.to_set() =~= s);
        assert(sorted_strict(q));
    } else {
        let m = lemma_least(s);
        let rest = s.remove(m);
        lemma_sorted_exists(rest);
        let p = sorted_of(rest);
        let q = seq![m] + p;
        assert forall|i: int, j: int| 0 <= i < j < q.len() implies str_lt(#[trigger] q[i], #[trigger] q[j]) by {
            if i == 0 {
                assert(q[j] == p[j - 1]);
                assert(p.to_set().contains(p[j - 1]));
                assert(rest.contains(q[j]));
            } else {
                assert(q[i] == p[i - 1] && q[j] == p[j - 1]);
            }
        }
        assert forall|x: Seq<char>| q.to_set().contains(x) <==> s.contains(x) by {
            if q.to_set().contains(x) {
                let k = choose|k: int| 0 <= k < q.len() && q[k] == x;
                if k > 0 {
                    assert(p[k - 1] == x);
                    assert(p.to_set().contains(x));
                }
            }
            if s.contains(x) {
                if x == m {
                    assert(q[0] == x);
                } else {
                    assert(rest.contains(x));
                    let k = choose|k: int| 0 <= k < p.len() && p[k] == x;
                    assert(q[k + 1] == x);
                }
            }
        }
        assert(q.to_set() =~= s);
        lemma_sorted_of(q);
    }
}

/// A function that captures registers takes each of them once, in increasing order,
/// after its own parameters; and each call to it passes them in that order.
pub proof fn law_capture_sorted(t: Seq<FnFacts>, name: Seq<char>)
    requires
        forall|k: int| 0 <= k < t.len() ==> (#[trigger] t[k].caps).finite(),
    ensures
        sorted_strict(caps_for(t, closure(t), name)),
        caps_for(t, closure(t), name).no_duplicates(),
        find_name(fact_names(t), name) matches Some(idx) ==> caps_for(t, closure(t), name).to_set() == closure(t)[idx],
{
    lemma_find_name(fact_names(t), name);
    lemma_fixed_exists(t, 0);
    let n = choose|n: nat| is_fixed(t, n);
    lemma_closure(t, n);
    lemma_iterate_bounded(t, n);
    let q = caps_for(t, closure(t), name);
    match find_name(fact_names(t), name) {
        Some(idx) => {
            let u = union_all(init_caps(t));
            assert(closure(t)[idx].subset_of(u));
            vstd::set_lib::lemma_len_subset(closure(t)[idx], u);
            lemma_sorted_exists(closure(t)[idx]);
        },
        None => {
            assert(sorted_strict(q));
        },
    }
    assert forall|i: int, j: int| 0 <= i < q.len() && 0 <= j < q.len() && i != j implies q[i] != q[j] by {
        if i < j {
            assert(str_lt(q[i], q[j]));
            lemma_str_lt_irrefl(q[i]);
        } else {
            assert(str_lt(q[j], q[i]));
            lemma_str_lt_irrefl(q[j]);
        }
    }
}

} // verus!
