//! Renaming of functions: each function gets a name of its own, its old name followed by
//! `#` and a number, and each call names the function that its scope sees.
use vstd::prelude::*;
use crate::ir;
use crate::ir::{Instr, InstrV, Operand};
use crate::symbol_table;
use crate::symbol_table::SymbolTable;
use crate::text;
use crate::text::{push_decimal, push_str};
use crate::translate::{lemma_reg_env_define, lemma_reg_env_lookup, lemma_reg_env_pop, lemma_reg_env_push, reg_env};

verus! {

/// The new name of the function `name` that gets the number `id`.
pub open spec fn renamed(name: Seq<char>, id: nat) -> Seq<char> {
    name + "#"@ + text::decimal(id)
}

/// The number of function declarations, at any depth.
pub open spec fn count_fns(s: Seq<InstrV>) -> nat
    decreases ir::instrs_size(s),
{
    if s.len() == 0 {
        0
    } else {
        proof {
            ir::lemma_size_parts(s);
        }
        count_fns(s.drop_last()) + match s.last() {
            InstrV::FnDecl { body, .. } => 1 + count_fns(body),
            _ => 0,
        }
    }
}

/// The number of function declarations of the top level.
pub open spec fn top_fns(s: Seq<InstrV>) -> nat
    decreases s.len(),
{
    if s.len() == 0 {
        0
    } else {
        top_fns(s.drop_last()) + if s.last() is FnDecl {
            1nat
        } else {
            0nat
        }
    }
}

/// Renames the function declarations of the top level of `s`, in order, numbering them
/// from `id`, and binds each old name to its new one in the innermost scope.
pub open spec fn rn_collect(s: Seq<InstrV>, id: nat, env: Seq<Map<Seq<char>, Seq<char>>>) -> (
    Seq<InstrV>,
    nat,
    Seq<Map<Seq<char>, Seq<char>>>,
)
    decreases s.len(),
{
    if s.len() == 0 {
        (seq![], id, env)
    } else {
        let (out, id1, env1) = rn_collect(s.drop_last(), id, env);
        match s.last() {
            InstrV::FnDecl { name, params, body } => (
                out.push(InstrV::FnDecl { name: renamed(name, id1), params, body }),
                id1 + 1,
                symbol_table::define_in(env1, name, renamed(name, id1)),
            ),
            _ => (out.push(s.last()), id1, env1),
        }
    }
}

/// After the collection: each call gets the name that its scope binds to the called
/// name, if any; the body of each function is traversed in a scope of its own.
pub open spec fn rn_rest(s: Seq<InstrV>, id: nat, env: Seq<Map<Seq<char>, Seq<char>>>) -> (
    Seq<InstrV>,
    nat,
    Seq<Map<Seq<char>, Seq<char>>>,
)
    decreases ir::instrs_size(s), 0nat,
{
    if s.len() == 0 {
        (seq![], id, env)
    } else {
        proof {
            ir::lemma_size_parts(s);
        }
        let (out, id1, env1) = rn_rest(s.drop_last(), id, env);
        match s.last() {
            InstrV::Call { dest, name, args } => (
                out.push(InstrV::Call {
                    dest,
                    name: match symbol_table::lookup_in(env1, name) {
                        Some(n) => n,
                        None => name,
                    },
                    args,
                }),
                id1,
                env1,
            ),
            InstrV::FnDecl { name, params, body } => {
                let (b2, id2, env2) = rn_traverse(body, id1, env1.push(Map::empty()));
                (out.push(InstrV::FnDecl { name, params, body: b2 }), id2, env2.drop_last())
            },
            _ => (out.push(s.last()), id1, env1),
        }
    }
}

/// Renames the functions of `s` and then the calls and the bodies.
pub open spec fn rn_traverse(s: Seq<InstrV>, id: nat, env: Seq<Map<Seq<char>, Seq<char>>>) -> (
    Seq<InstrV>,
    nat,
    Seq<Map<Seq<char>, Seq<char>>>,
)
    decreases ir::instrs_size(s), 1nat,
{
    let (s1, id1, env1) = rn_collect(s, id, env);
    proof {
        lemma_rn_collect(s, id, env);
    }
    rn_rest(s1, id1, env1)
}

/// The collection renames the top-level functions, and keeps the shape: the size, the
/// kinds and the bodies; it binds in the innermost scope only.
pub proof fn lemma_rn_collect(s: Seq<InstrV>, id: nat, env: Seq<Map<Seq<char>, Seq<char>>>)
    ensures
        ir::instrs_size(rn_collect(s, id, env).0) == ir::instrs_size(s),
        rn_collect(s, id, env).1 == id + top_fns(s),
        count_fns(rn_collect(s, id, env).0) == count_fns(s),
        top_fns(rn_collect(s, id, env).0) == top_fns(s),
        rn_collect(s, id, env).0.len() == s.len(),
        env.len() > 0 ==> rn_collect(s, id, env).2.len() == env.len(),
    decreases s.len(),
{
    if s.len() > 0 {
        lemma_rn_collect(s.drop_last(), id, env);
        let (out, id1, env1) = rn_collect(s.drop_last(), id, env);
        let out2 = rn_collect(s, id, env).0;
        assert(out2.drop_last() == out);
        assert(out2.last() is FnDecl <==> s.last() is FnDecl);
        assert(ir::instr_size(out2.last()) == ir::instr_size(s.last()));
        assert(ir::instrs_size(out2) == ir::instrs_size(out) + ir::instr_size(out2.last()));
    }
}

/// The rest of the traversal numbers every function nested in the bodies.
proof fn lemma_rn_rest(s: Seq<InstrV>, id: nat, env: Seq<Map<Seq<char>, Seq<char>>>)
    requires
        env.len() > 0,
    ensures
        rn_rest(s, id, env).1 + top_fns(s) == id + count_fns(s),
        rn_rest(s, id, env).2.len() == env.len(),
        rn_rest(s, id, env).0.len() == s.len(),
    decreases ir::instrs_size(s), 0nat,
{
    if s.len() > 0 {
        ir::lemma_size_parts(s);
        lemma_rn_rest(s.drop_last(), id, env);
        let (out, id1, env1) = rn_rest(s.drop_last(), id, env);
        if let InstrV::FnDecl { name, params, body } = s.last() {
            lemma_rn_traverse(body, id1, env1.push(Map::empty()));
        }
    }
}

/// The traversal numbers every function, at any depth, and keeps the number of scopes.
pub proof fn lemma_rn_traverse(s: Seq<InstrV>, id: nat, env: Seq<Map<Seq<char>, Seq<char>>>)
    requires
        env.len() > 0,
    ensures
        rn_traverse(s, id, env).1 == id + count_fns(s),
        rn_traverse(s, id, env).2.len() == env.len(),
        rn_traverse(s, id, env).0.len() == s.len(),
    decreases ir::instrs_size(s), 1nat,
{
    lemma_rn_collect(s, id, env);
    let (s1, id1, env1) = rn_collect(s, id, env);
    lemma_rn_rest(s1, id1, env1);
}

/// The counts of a prefix are at most those of the whole.
proof fn lemma_count_prefix(s: Seq<InstrV>, i: int)
    requires
        0 <= i < s.len(),
    ensures
        count_fns(s.take(i + 1)) == count_fns(s.take(i)) + match s[i] {
            InstrV::FnDecl { body, .. } => 1 + count_fns(body),
            _ => 0,
        },
        top_fns(s.take(i + 1)) == top_fns(s.take(i)) + if s[i] is FnDecl {
            1nat
        } else {
            0nat
        },
        count_fns(s.take(i + 1)) <= count_fns(s),
        top_fns(s.take(i + 1)) <= top_fns(s),
        count_fns(s.take(i + 1)) - top_fns(s.take(i + 1)) <= count_fns(s) - top_fns(s),
    decreases s.len() - i,
{
    assert(s.take(i + 1).drop_last() == s.take(i));
    assert(s.take(i + 1).last() == s[i]);
    if i + 1 < s.len() {
        lemma_count_prefix(s, i + 1);
    } else {
        assert(s.take(i + 1) == s);
    }
    lemma_top_le_count(s.take(i + 1));
}

proof fn lemma_top_le_count(s: Seq<InstrV>)
    ensures
        top_fns(s) <= count_fns(s),
    decreases s.len(),
{
    if s.len() > 0 {
        lemma_top_le_count(s.drop_last());
    }
}

/// Gives each function a name of its own: its old name, `#` and a number that counts
/// the functions renamed so far.
pub struct FunctionRenamer {
    id: u32,
}

impl View for FunctionRenamer {
    type V = nat;

    /// The number of functions renamed so far.
    closed spec fn view(&self) -> nat {
        self.id as nat
    }
}

impl FunctionRenamer {
    pub fn new() -> (r: Self)
        ensures
            r@ == 0,
    {
        Self { id: 0 }
    }

    /// Renames the function declarations of the top level of `instrs`.
    fn collect_fndecl(&mut self, sym_tab: &mut SymbolTable<String>, instrs: &mut Vec<Instr>)
        requires
            old(self)@ + top_fns(ir::instrs_view(old(instrs)@)) <= u32::MAX,
            old(sym_tab).scopes().len() > 0,
        ensures
            (ir::instrs_view(final(instrs)@), final(self)@, reg_env(final(sym_tab).scopes())) == rn_collect(
                ir::instrs_view(old(instrs)@),
                old(self)@,
                reg_env(old(sym_tab).scopes()),
            ),
    {
        let ghost vv = ir::instrs_view(instrs@);
        let ghost id0 = self@;
        let ghost env0 = reg_env(sym_tab.scopes());
        proof {
            ir::lemma_instrs_view(instrs@);
            assert(vv.take(0) == Seq::<InstrV>::empty());
            assert(instrs@.take(0) == Seq::<Instr>::empty());
            assert(ir::instrs_view(instrs@.take(0)) == Seq::<InstrV>::empty());
        }
        let mut i: usize = 0;
        while i < instrs.len()
            invariant
                vv == ir::instrs_view(old(instrs)@),
                id0 == old(self)@,
                env0 == reg_env(old(sym_tab).scopes()),
                id0 + top_fns(vv) <= u32::MAX,
                vv.len() == instrs.len(),
                i <= instrs.len(),
                forall|j: int| i <= j < instrs.len() ==> #[trigger] ir::instr_view(instrs@[j]) == vv[j],
                sym_tab.scopes().len() > 0,
                rn_collect(vv.take(i as int), id0, env0) == (
                    ir::instrs_view(instrs@.take(i as int)),
                    self@,
                    reg_env(sym_tab.scopes()),
                ),
            decreases instrs.len() - i,
        {
            proof {
                assert(vv.take(i + 1).drop_last() == vv.take(i as int));
                assert(vv.take(i + 1).last() == vv[i as int]);
                lemma_rn_collect(vv.take(i as int), id0, env0);
                lemma_top_prefix(vv, i as int);
            }
            let ghost before = instrs@;
            assert(ir::instr_view(before[i as int]) == vv[i as int]);
            let mut taken = Instr::Ret { operand: Operand::Imm(0) };
            std::mem::swap(&mut taken, &mut instrs[i]);
            assert(taken == before[i as int]);
            let put = match taken {
                Instr::FnDecl { name, params, body } => {
                    let mut new_name = name.clone();
                    push_str(&mut new_name, "#");
                    push_decimal(&mut new_name, self.id as usize);
                    self.id += 1;
                    proof {
                        lemma_reg_env_define(sym_tab.scopes(), name@, new_name);
                    }
                    sym_tab.define(name.as_str(), new_name.clone());
                    Instr::FnDecl { name: new_name, params, body }
                },
                other => other,
            };
            instrs[i] = put;
            proof {
                assert(instrs@.take(i + 1).drop_last() == before.take(i as int));
                assert(instrs@.take(i + 1) == before.take(i as int).push(instrs@[i as int]));
                ir::lemma_instrs_view_push(before.take(i as int), instrs@[i as int]);
                assert forall|j: int| i + 1 <= j < instrs.len() implies #[trigger] ir::instr_view(instrs@[j]) == vv[j] by {
                    assert(instrs@[j] == before[j]);
                }
            }
            i += 1;
        }
        proof {
            assert(vv.take(instrs.len() as int) == vv);
            assert(instrs@.take(instrs.len() as int) == instrs@);
        }
    }

    /// Renames the functions of `instrs`, then the calls, then the bodies.
    fn traverse_instrs(&mut self, sym_tab: &mut SymbolTable<String>, instrs: &mut Vec<Instr>)
        requires
            old(self)@ + count_fns(ir::instrs_view(old(instrs)@)) <= u32::MAX,
            old(sym_tab).scopes().len() > 0,
        ensures
            (ir::instrs_view(final(instrs)@), final(self)@, reg_env(final(sym_tab).scopes())) == rn_traverse(
                ir::instrs_view(old(instrs)@),
                old(self)@,
                reg_env(old(sym_tab).scopes()),
            ),
        decreases ir::instrs_size(ir::instrs_view(old(instrs)@)),
    {
        let ghost v0 = ir::instrs_view(instrs@);
        proof {
            lemma_top_le_count(v0);
            lemma_rn_collect(v0, self@, reg_env(sym_tab.scopes()));
        }
        self.collect_fndecl(sym_tab, instrs);
        let ghost vv = ir::instrs_view(instrs@);
        let ghost id1 = self@;
        let ghost env1 = reg_env(sym_tab.scopes());
        proof {
            ir::lemma_instrs_view(instrs@);
            assert(vv.take(0) == Seq::<InstrV>::empty());
            assert(instrs@.take(0) == Seq::<Instr>::empty());
            assert(ir::instrs_view(instrs@.take(0)) == Seq::<InstrV>::empty());
            lemma_rn_collect(v0, old(self)@, reg_env(old(sym_tab).scopes()));
        }
        let mut i: usize = 0;
        while i < instrs.len()
            invariant
                rn_traverse(v0, old(self)@, reg_env(old(sym_tab).scopes())) == rn_rest(vv, id1, env1),
                ir::instrs_size(vv) == ir::instrs_size(v0),
                v0 == ir::instrs_view(old(instrs)@),
                id1 + count_fns(vv) - top_fns(vv) <= u32::MAX,
                top_fns(vv) <= count_fns(vv),
                env1.len() > 0,
                vv.len() == instrs.len(),
                i <= instrs.len(),
                forall|j: int| i <= j < instrs.len() ==> #[trigger] ir::instr_view(instrs@[j]) == vv[j],
                sym_tab.scopes().len() == env1.len(),
                self@ + top_fns(vv.take(i as int)) == id1 + count_fns(vv.take(i as int)),
                rn_rest(vv.take(i as int), id1, env1) == (
                    ir::instrs_view(instrs@.take(i as int)),
                    self@,
                    reg_env(sym_tab.scopes()),
                ),
            decreases instrs.len() - i,
        {
            proof {
                assert(vv.take(i + 1).drop_last() == vv.take(i as int));
                assert(vv.take(i + 1).last() == vv[i as int]);
                ir::lemma_instrs_size(vv, i as int);
                lemma_count_prefix(vv, i as int);
                lemma_rn_rest(vv.take(i as int), id1, env1);
            }
            let ghost before = instrs@;
            assert(ir::instr_view(before[i as int]) == vv[i as int]);
            let mut taken = Instr::Ret { operand: Operand::Imm(0) };
            std::mem::swap(&mut taken, &mut instrs[i]);
            assert(taken == before[i as int]);
            let put = match taken {
                Instr::Call { dest, name, args } => {
                    proof {
                        lemma_reg_env_lookup(sym_tab.scopes(), name@);
                    }
                    let new_name = match sym_tab.lookup(name.as_str()) {
                        Some(n) => n.clone(),
                        None => name,
                    };
                    Instr::Call { dest, name: new_name, args }
                },
                Instr::FnDecl { name, params, mut body } => {
                    proof {
                        assert(ir::instr_size(vv[i as int]) == 1 + ir::instrs_size(ir::instrs_view(body@)));
                        lemma_reg_env_push(sym_tab.scopes());
                    }
                    sym_tab.push();
                    let ghost env_in = reg_env(sym_tab.scopes());
                    let ghost id_in = self@;
                    self.traverse_instrs(sym_tab, &mut body);
                    proof {
                        lemma_rn_traverse(vv[i as int]->body, id_in, env_in);
                        lemma_reg_env_pop(sym_tab.scopes());
                    }
                    sym_tab.pop();
                    Instr::FnDecl { name, params, body }
                },
                other => other,
            };
            instrs[i] = put;
            proof {
                assert(instrs@.take(i + 1).drop_last() == before.take(i as int));
                assert(instrs@.take(i + 1) == before.take(i as int).push(instrs@[i as int]));
                ir::lemma_instrs_view_push(before.take(i as int), instrs@[i as int]);
                assert forall|j: int| i + 1 <= j < instrs.len() implies #[trigger] ir::instr_view(instrs@[j]) == vv[j] by {
                    assert(instrs@[j] == before[j]);
                }
            }
            i += 1;
        }
        proof {
            assert(vv.take(instrs.len() as int) == vv);
            assert(instrs@.take(instrs.len() as int) == instrs@);
        }
    }

    /// Renames every function of `instrs`, at any depth, and every call that names a
    /// function in scope.
    /// Whether renaming the program keeps the numbers within `u32`, as
    /// [`FunctionRenamer::traverse`] needs.
    pub fn can_traverse(&self, instrs: &Vec<Instr>) -> (r: bool)
        ensures
            r == (self@ + count_fns(ir::instrs_view(instrs@)) <= u32::MAX),
    {
        fns_within(instrs, u32::MAX - self.id).is_some()
    }

    pub fn traverse(&mut self, instrs: &mut Vec<Instr>)
        requires
            old(self)@ + count_fns(ir::instrs_view(old(instrs)@)) <= u32::MAX,
        ensures
            (ir::instrs_view(final(instrs)@), final(self)@) == ({
                let out = rn_traverse(ir::instrs_view(old(instrs)@), old(self)@, seq![Map::empty()]);
                (out.0, out.1)
            }),
    {
        let mut sym_tab: SymbolTable<String> = SymbolTable::new();
        proof {
            lemma_reg_env_push(sym_tab.scopes());
            assert(reg_env(sym_tab.scopes()) =~= Seq::<Map<Seq<char>, Seq<char>>>::empty());
        }
        sym_tab.push();
        proof {
            assert(reg_env(sym_tab.scopes()) =~= seq![Map::<Seq<char>, Seq<char>>::empty()]);
        }
        self.traverse_instrs(&mut sym_tab, instrs);
        sym_tab.pop();
    }
}

/// The number of function declarations, nested ones included, where it is at most
/// `limit`.
fn fns_within(instrs: &Vec<Instr>, limit: u32) -> (r: Option<u32>)
    ensures
        match r {
            Some(k) => k == count_fns(ir::instrs_view(instrs@)) && k <= limit,
            None => count_fns(ir::instrs_view(instrs@)) > limit,
        },
    decreases ir::instrs_size(ir::instrs_view(instrs@)),
{
    let ghost vv = ir::instrs_view(instrs@);
    proof {
        ir::lemma_instrs_view(instrs@);
        assert(vv.take(0) =~= Seq::<InstrV>::empty());
    }
    let mut total: u32 = 0;
    let mut i: usize = 0;
    while i < instrs.len()
        invariant
            vv == ir::instrs_view(instrs@),
            vv.len() == instrs.len(),
            forall|j: int| 0 <= j < instrs.len() ==> #[trigger] vv[j] == ir::instr_view(instrs@[j]),
            i <= instrs.len(),
            total == count_fns(vv.take(i as int)),
            total <= limit,
        decreases instrs.len() - i,
    {
        proof {
            ir::lemma_instrs_size(vv, i as int);
            assert(vv.take(i + 1).drop_last() == vv.take(i as int));
            assert(vv.take(i + 1).last() == vv[i as int]);
            lemma_count_prefix(vv, i as int);
        }
        if let Instr::FnDecl { body, .. } = &instrs[i] {
            assert(ir::instr_size(vv[i as int]) == 1 + ir::instrs_size(ir::instrs_view(body@)));
            if total == limit {
                return None;
            }
            match fns_within(body, limit - total - 1) {
                Some(k) => {
                    total = total + 1 + k;
                },
                None => {
                    return None;
                },
            }
        }
        i += 1;
    }
    assert(vv.take(instrs.len() as int) == vv);
    Some(total)
}

proof fn lemma_top_prefix(s: Seq<InstrV>, i: int)
    requires
        0 <= i < s.len(),
    ensures
        top_fns(s.take(i + 1)) == top_fns(s.take(i)) + if s[i] is FnDecl {
            1nat
        } else {
            0nat
        },
        top_fns(s.take(i + 1)) <= top_fns(s),
    decreases s.len() - i,
{
    assert(s.take(i + 1).drop_last() == s.take(i));
    assert(s.take(i + 1).last() == s[i]);
    if i + 1 < s.len() {
        lemma_top_prefix(s, i + 1);
    } else {
        assert(s.take(i + 1) == s);
    }
}

/// The new names are all distinct: two functions renamed with different numbers never
/// get the same name, whatever their old names.
pub proof fn law_renamed_distinct(a: Seq<char>, i: nat, b: Seq<char>, j: nat)
    requires
        i != j,
    ensures
        renamed(a, i) != renamed(b, j),
{
    reveal_strlit("#");
    if renamed(a, i) == renamed(b, j) {
        let x = renamed(a, i);
        let di = text::decimal(i);
        let dj = text::decimal(j);
        text::lemma_decimal_digits(i);
        text::lemma_decimal_digits(j);
        // the numeral is what follows the last `#`
        if di.len() < dj.len() {
            let k = x.len() - di.len() - 1;
            assert(x[k] == '#');
            assert(x[k] == dj[dj.len() - di.len() - 1]);
        } else if dj.len() < di.len() {
            let k = x.len() - dj.len() - 1;
            assert(x[k] == '#');
            assert(x[k] == di[di.len() - dj.len() - 1]);
        } else {
            assert(di =~= x.subrange(x.len() - di.len(), x.len() as int));
            assert(dj =~= x.subrange(x.len() - dj.len(), x.len() as int));
            text::lemma_decimal_injective(i, j);
        }
    }
}


/// The names of the function declarations of the top level, in order.
pub open spec fn top_names(s: Seq<InstrV>) -> Seq<Seq<char>>
    decreases s.len(),
{
    if s.len() == 0 {
        seq![]
    } else {
        top_names(s.drop_last()) + match s.last() {
            InstrV::FnDecl { name, .. } => seq![name],
            _ => seq![],
        }
    }
}

/// The names of the function declarations nested in the bodies of those of the top
/// level, at any depth.
pub open spec fn nested_names(s: Seq<InstrV>) -> Seq<Seq<char>>
    decreases ir::instrs_size(s), 0nat,
{
    if s.len() == 0 {
        seq![]
    } else {
        proof {
            ir::lemma_size_parts(s);
        }
        nested_names(s.drop_last()) + match s.last() {
            InstrV::FnDecl { body, .. } => decl_names(body),
            _ => seq![],
        }
    }
}

/// The names of all the function declarations, at any depth.
pub open spec fn decl_names(s: Seq<InstrV>) -> Seq<Seq<char>>
    decreases ir::instrs_size(s), 1nat,
{
    top_names(s) + nested_names(s)
}

/// Whether `n` is a new name with a number in `lo..hi`.
pub open spec fn numbered(n: Seq<char>, lo: nat, hi: nat) -> bool {
    exists|x: Seq<char>, k: nat| lo <= k < hi && n == #[trigger] renamed(x, k)
}

/// Whether the names are distinct new names, numbered in `lo..hi`.
pub open spec fn numbered_within(names: Seq<Seq<char>>, lo: nat, hi: nat) -> bool {
    names.no_duplicates() && forall|j: int| 0 <= j < names.len() ==> numbered(#[trigger] names[j], lo, hi)
}

proof fn lemma_numbered_empty(lo: nat, hi: nat)
    ensures
        numbered_within(seq![], lo, hi),
{
}

proof fn lemma_numbered_concat(a: Seq<Seq<char>>, b: Seq<Seq<char>>, lo: nat, mid: nat, hi: nat)
    requires
        numbered_within(a, lo, mid),
        numbered_within(b, mid, hi),
        lo <= mid <= hi,
    ensures
        numbered_within(a + b, lo, hi),
{
    let c = a + b;
    assert forall|j: int| 0 <= j < c.len() implies numbered(#[trigger] c[j], lo, hi) by {
        if j < a.len() {
            assert(c[j] == a[j]);
            assert(numbered(a[j], lo, mid));
            let (x, k) = choose|x: Seq<char>, k: nat| lo <= k < mid && a[j] == #[trigger] renamed(x, k);
            assert(c[j] == renamed(x, k));
        } else {
            assert(c[j] == b[j - a.len()]);
            assert(numbered(b[j - a.len()], mid, hi));
            let (x, k) = choose|x: Seq<char>, k: nat| mid <= k < hi && b[j - a.len()] == #[trigger] renamed(x, k);
            assert(c[j] == renamed(x, k));
        }
    }
    assert forall|i: int, j: int| 0 <= i < j < c.len() implies c[i] != c[j] by {
        if j < a.len() {
            assert(c[i] == a[i] && c[j] == a[j]);
        } else if i >= a.len() {
            assert(c[i] == b[i - a.len()] && c[j] == b[j - a.len()]);
        } else {
            assert(c[i] == a[i] && c[j] == b[j - a.len()]);
            assert(numbered(a[i], lo, mid));
            assert(numbered(b[j - a.len()], mid, hi));
            let (x, k) = choose|x: Seq<char>, k: nat| lo <= k < mid && a[i] == #[trigger] renamed(x, k);
            let (y, m) = choose|y: Seq<char>, m: nat| mid <= m < hi && b[j - a.len()] == #[trigger] renamed(y, m);
            law_renamed_distinct(x, k, y, m);
        }
    }
}

/// The collection gives the functions of the top level distinct new names, numbered
/// from `id` on.
proof fn lemma_collect_names(s: Seq<InstrV>, id: nat, env: Seq<Map<Seq<char>, Seq<char>>>)
    ensures
        numbered_within(top_names(rn_collect(s, id, env).0), id, id + top_fns(s)),
        nested_names(rn_collect(s, id, env).0) == nested_names(s),
    decreases s.len(),
{
    if s.len() > 0 {
        lemma_collect_names(s.drop_last(), id, env);
        lemma_rn_collect(s.drop_last(), id, env);
        let (out, id1, env1) = rn_collect(s.drop_last(), id, env);
        let out2 = rn_collect(s, id, env).0;
        assert(out2.drop_last() == out);
        match s.last() {
            InstrV::FnDecl { name, params, body } => {
                let one = seq![renamed(name, id1)];
                assert(numbered(one[0], id1, id1 + 1));
                assert(numbered_within(one, id1, id1 + 1));
                lemma_numbered_concat(top_names(out), one, id, id1, id1 + 1);
                assert(top_names(out2) == top_names(out) + one);
            },
            _ => {
                assert(top_names(out2) =~= top_names(out));
                assert(top_names(s) =~= top_names(s.drop_last()));
            },
        }
        assert(nested_names(out2) == nested_names(out) + match out2.last() {
            InstrV::FnDecl { body, .. } => decl_names(body),
            _ => seq![],
        });
    }
}

/// The rest of the traversal keeps the names of the top level, and gives the nested
/// functions distinct new names, numbered from `id` on.
proof fn lemma_rest_names(s: Seq<InstrV>, id: nat, env: Seq<Map<Seq<char>, Seq<char>>>)
    requires
        env.len() > 0,
    ensures
        top_names(rn_rest(s, id, env).0) == top_names(s),
        numbered_within(nested_names(rn_rest(s, id, env).0), id, (id + count_fns(s) - top_fns(s)) as nat),
    decreases ir::instrs_size(s), 0nat,
{
    lemma_top_le_count(s);
    if s.len() > 0 {
        ir::lemma_size_parts(s);
        lemma_rest_names(s.drop_last(), id, env);
        lemma_rn_rest(s.drop_last(), id, env);
        lemma_top_le_count(s.drop_last());
        let (out, id1, env1) = rn_rest(s.drop_last(), id, env);
        let out2 = rn_rest(s, id, env).0;
        assert(out2.drop_last() == out);
        match s.last() {
            InstrV::FnDecl { name, params, body } => {
                lemma_traverse_names(body, id1, env1.push(Map::empty()));
                lemma_rn_traverse(body, id1, env1.push(Map::empty()));
                let b2 = rn_traverse(body, id1, env1.push(Map::empty())).0;
                assert(out2.last() == InstrV::FnDecl { name, params, body: b2 });
                assert(top_names(out2) == top_names(out) + seq![name]);
                assert(nested_names(out2) == nested_names(out) + decl_names(b2));
                lemma_numbered_concat(nested_names(out), decl_names(b2), id, id1, id1 + count_fns(body));
            },
            InstrV::Call { dest, name, args } => {
                assert(top_names(out2) =~= top_names(out));
                assert(nested_names(out2) =~= nested_names(out));
            },
            _ => {
                assert(top_names(out2) =~= top_names(out));
                assert(nested_names(out2) =~= nested_names(out));
            },
        }
    }
}

/// The traversal gives all the functions, at any depth, distinct new names, numbered
/// from `id` on.
proof fn lemma_traverse_names(s: Seq<InstrV>, id: nat, env: Seq<Map<Seq<char>, Seq<char>>>)
    requires
        env.len() > 0,
    ensures
        numbered_within(decl_names(rn_traverse(s, id, env).0), id, id + count_fns(s)),
    decreases ir::instrs_size(s), 1nat,
{
    lemma_rn_collect(s, id, env);
    lemma_collect_names(s, id, env);
    let (s1, id1, env1) = rn_collect(s, id, env);
    lemma_rest_names(s1, id1, env1);
    lemma_top_le_count(s);
    let out = rn_rest(s1, id1, env1).0;
    lemma_numbered_concat(top_names(out), nested_names(out), id, id1, id + count_fns(s));
}

/// After renaming, no two functions have the same name, at any depth, whatever names
/// they had before.
pub proof fn law_names_distinct(s: Seq<InstrV>, id: nat)
    ensures
        decl_names(rn_traverse(s, id, seq![Map::empty()]).0).no_duplicates(),
{
    lemma_traverse_names(s, id, seq![Map::empty()]);
}


/// Whether scope `k` is the innermost of `env` that binds `name`.
pub open spec fn nearest_binding(env: Seq<Map<Seq<char>, Seq<char>>>, k: int, name: Seq<char>) -> bool {
    &&& 0 <= k < env.len()
    &&& env[k].contains_key(name)
    &&& forall|j: int| k < j < env.len() ==> !(#[trigger] env[j]).contains_key(name)
}

/// A lookup through the scopes finds the binding of the innermost scope that binds the
/// name, and nothing where no scope binds it.
proof fn lemma_lookup_nearest(env: Seq<Map<Seq<char>, Seq<char>>>, name: Seq<char>)
    ensures
        forall|k: int| nearest_binding(env, k, name) ==> symbol_table::lookup_in(env, name) == Some(env[k][name]),
        (forall|k: int| 0 <= k < env.len() ==> !(#[trigger] env[k]).contains_key(name)) ==> symbol_table::lookup_in(env, name) is None,
    decreases env.len(),
{
    if env.len() > 0 {
        lemma_lookup_nearest(env.drop_last(), name);
        assert forall|k: int| nearest_binding(env, k, name) implies symbol_table::lookup_in(env, name) == Some(env[k][name]) by {
            if k < env.len() - 1 {
                assert(!env[env.len() - 1].contains_key(name));
                assert(nearest_binding(env.drop_last(), k, name)) by {
                    assert forall|j: int| k < j < env.drop_last().len() implies !(#[trigger] env.drop_last()[j]).contains_key(name) by {
                        assert(env.drop_last()[j] == env[j]);
                    }
                }
                assert(env.drop_last()[k] == env[k]);
            }
        }
        if forall|k: int| 0 <= k < env.len() ==> !(#[trigger] env[k]).contains_key(name) {
            assert(!env[env.len() - 1].contains_key(name));
            assert forall|k: int| 0 <= k < env.drop_last().len() implies !(#[trigger] env.drop_last()[k]).contains_key(name) by {
                assert(env.drop_last()[k] == env[k]);
            }
        }
    }
}

/// The collection binds in the innermost scope only.
proof fn lemma_collect_env(s: Seq<InstrV>, id: nat, env: Seq<Map<Seq<char>, Seq<char>>>)
    requires
        env.len() > 0,
    ensures
        rn_collect(s, id, env).2.len() == env.len(),
        rn_collect(s, id, env).2.drop_last() == env.drop_last(),
    decreases s.len(),
{
    if s.len() > 0 {
        lemma_collect_env(s.drop_last(), id, env);
        let e1 = rn_collect(s.drop_last(), id, env).2;
        if let InstrV::FnDecl { name, .. } = s.last() {
            let id1 = rn_collect(s.drop_last(), id, env).1;
            assert(symbol_table::define_in(e1, name, renamed(name, id1)).drop_last() =~= e1.drop_last());
        }
    }
}

/// After the collection, the rest of the traversal leaves the scopes as they were; the
/// whole traversal changes only the innermost scope.
proof fn lemma_rest_env(s: Seq<InstrV>, id: nat, env: Seq<Map<Seq<char>, Seq<char>>>)
    requires
        env.len() > 0,
    ensures
        rn_rest(s, id, env).2 == env,
    decreases ir::instrs_size(s), 0nat,
{
    if s.len() > 0 {
        ir::lemma_size_parts(s);
        lemma_rest_env(s.drop_last(), id, env);
        let (out, id1, env1) = rn_rest(s.drop_last(), id, env);
        if let InstrV::FnDecl { body, .. } = s.last() {
            lemma_traverse_env(body, id1, env1.push(Map::empty()));
            assert(env1.push(Map::empty()).drop_last() =~= env1);
        }
    }
}

proof fn lemma_traverse_env(s: Seq<InstrV>, id: nat, env: Seq<Map<Seq<char>, Seq<char>>>)
    requires
        env.len() > 0,
    ensures
        rn_traverse(s, id, env).2.len() == env.len(),
        rn_traverse(s, id, env).2.drop_last() == env.drop_last(),
    decreases ir::instrs_size(s), 1nat,
{
    lemma_rn_collect(s, id, env);
    lemma_collect_env(s, id, env);
    let (s1, id1, env1) = rn_collect(s, id, env);
    lemma_rest_env(s1, id1, env1);
}

/// Each call names the function that its scope sees: the new name that the innermost
/// scope binding its old name gives it, searching the enclosing scopes too; a call to a
/// name that no scope binds keeps it. The destination and the arguments stay.
pub proof fn law_calls_see_enclosing_scopes(s: Seq<InstrV>, id: nat, env: Seq<Map<Seq<char>, Seq<char>>>)
    requires
        env.len() > 0,
    ensures
        rn_rest(s, id, env).0.len() == s.len(),
        forall|i: int| 0 <= i < s.len() && (#[trigger] s[i]) is Call ==> ({
            let c = rn_rest(s, id, env).0[i];
            let name = s[i]->Call_name;
            &&& c is Call
            &&& c->Call_dest == s[i]->Call_dest
            &&& c->Call_args == s[i]->Call_args
            &&& forall|k: int| nearest_binding(env, k, name) ==> c->Call_name == env[k][name]
            &&& (forall|k: int| 0 <= k < env.len() ==> !(#[trigger] env[k]).contains_key(name)) ==> c->Call_name == name
        }),
    decreases s.len(),
{
    lemma_rn_rest(s, id, env);
    if s.len() > 0 {
        law_calls_see_enclosing_scopes(s.drop_last(), id, env);
        lemma_rest_env(s.drop_last(), id, env);
        let out = rn_rest(s.drop_last(), id, env).0;
        let out2 = rn_rest(s, id, env).0;
        ir::lemma_size_parts(s);
        assert(out2.drop_last() == out);
        assert forall|i: int| 0 <= i < s.len() && (#[trigger] s[i]) is Call implies ({
            let c = out2[i];
            let name = s[i]->Call_name;
            &&& c is Call
            &&& c->Call_dest == s[i]->Call_dest
            &&& c->Call_args == s[i]->Call_args
            &&& forall|k: int| nearest_binding(env, k, name) ==> c->Call_name == env[k][name]
            &&& (forall|k: int| 0 <= k < env.len() ==> !(#[trigger] env[k]).contains_key(name)) ==> c->Call_name == name
        }) by {
            lemma_lookup_nearest(env, s[i]->Call_name);
            if i < s.len() - 1 {
                assert(s.drop_last()[i] == s[i]);
                assert(out2[i] == out[i]);
            }
        }
    }
}

} // verus!
