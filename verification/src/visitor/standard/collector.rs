//! The collector: records the public functions of each file under mangled names.
use crate::compiler::{FuncInfo, FuncInfoV, Module};
use crate::parser::ast::{lemma_stmts_v_index, opt_type_v, stmts_v, Stmt, StmtV};
use crate::parser::types::{args_v, Type, TypeV};
use crate::session::Session;
use crate::text::{append_chars, chars_of, dec, lemma_dec_injective, string_of, u64_text};
use vstd::prelude::*;

verus! {

/// The number of public functions among `ast`.
pub open spec fn count_pub(ast: Seq<StmtV>) -> nat
    decreases ast.len(),
{
    if ast.len() == 0 {
        0
    } else {
        count_pub(ast.drop_last()) + match ast.last() {
            StmtV::Func(_, true, _, _, _, _) => 1nat,
            _ => 0nat,
        }
    }
}

/// What the collector records for the public functions of `ast`, in order, when the
/// mangle counter starts at `m`: each under the name `f` and the next number.
pub open spec fn collected(ast: Seq<StmtV>, m: nat) -> Seq<FuncInfoV>
    decreases ast.len(),
{
    if ast.len() == 0 {
        Seq::empty()
    } else {
        let before = collected(ast.drop_last(), m);
        match ast.last() {
            StmtV::Func(_, true, id, args, ret, _) => before.push(FuncInfoV {
                id,
                id_mangled: "f"@ + dec(m + count_pub(ast.drop_last())),
                args: args.map_values(|a: (Seq<char>, TypeV)| a.1),
                ret_ty: ret,
            }),
            _ => before,
        }
    }
}

pub open spec fn infos_v(s: Seq<FuncInfo>) -> Seq<FuncInfoV> {
    s.map_values(|f: FuncInfo| f@)
}

/// The collector pass.
pub struct StdCollector {}

impl StdCollector {
    pub fn new() -> (c: Self) {
        StdCollector {}
    }

    /// Records the public functions of one file's statements in its module, each under
    /// a fresh mangled name from the session's counter.
    pub fn collect(&self, session: &mut Session, ast: &Vec<Stmt>, module: &mut Module)
        requires
            old(session).mangle_count() + count_pub(stmts_v(ast@)) <= usize::MAX,
        ensures
            infos_v(final(module).pub_func@) == infos_v(old(module).pub_func@) + collected(stmts_v(ast@), old(session).mangle_count()),
            final(module).id == old(module).id,
            final(module).pub_uses == old(module).pub_uses,
            final(session).mangle_count() == old(session).mangle_count() + count_pub(stmts_v(ast@)),
            final(session).diags() == old(session).diags(),
            final(session).spec_sources() == old(session).spec_sources(),
            final(session).spec_reporter() == old(session).spec_reporter(),
            final(session).spec_modules() == old(session).spec_modules(),
            final(session).wf() == old(session).wf(),
    {
        let ghost all = stmts_v(ast@);
        let ghost m0 = session.mangle_count();
        let ghost f0 = infos_v(module.pub_func@);
        proof {
            lemma_stmts_v_index(ast@);
            assert(all.take(0) =~= Seq::<StmtV>::empty());
            assert(f0 + collected(all.take(0), m0) =~= f0);
            lemma_count_pub_prefix(all, all.len() as int);
            assert(all.take(all.len() as int) =~= all);
        }
        let mut i: usize = 0;
        while i < ast.len()
            invariant
                i <= ast.len(),
                all == stmts_v(ast@),
                all.len() == ast.len(),
                forall|j: int| 0 <= j < ast.len() ==> #[trigger] all[j] == ast@[j]@,
                m0 + count_pub(all) <= usize::MAX,
                forall|k: int| 0 <= k <= all.len() ==> count_pub(#[trigger] all.take(k)) <= count_pub(all),
                infos_v(module.pub_func@) == f0 + collected(all.take(i as int), m0),
                session.mangle_count() == m0 + count_pub(all.take(i as int)),
                module.id == old(module).id,
                module.pub_uses == old(module).pub_uses,
                session.diags() == old(session).diags(),
                session.spec_sources() == old(session).spec_sources(),
                session.spec_reporter() == old(session).spec_reporter(),
                session.spec_modules() == old(session).spec_modules(),
                session.wf() == old(session).wf(),
            decreases ast.len() - i,
        {
            proof {
                assert(all.take(i + 1).drop_last() =~= all.take(i as int));
                assert(all.take(i + 1).last() == all[i as int]);
                assert(count_pub(all.take(i + 1)) <= count_pub(all));
            }
            match &ast[i] {
                Stmt::Func(_, true, id, args, ret, _) => {
                    let n = session.new_mangle_func();
                    let mut name = chars_of("f");
                    let digits = u64_text(n as u64);
                    append_chars(&mut name, &digits);
                    let mut tys: Vec<Type> = Vec::new();
                    let mut k: usize = 0;
                    while k < args.len()
                        invariant
                            k <= args.len(),
                            tys@.len() == k,
                            forall|j: int| 0 <= j < k ==> #[trigger] tys@[j]@ == args@[j].1@,
                        decreases args.len() - k,
                    {
                        tys.push(args[k].1.copy());
                        k = k + 1;
                    }
                    let ret_copy = match ret {
                        Some(t) => Some(t.copy()),
                        None => None,
                    };
                    let info = FuncInfo::new(id.clone(), string_of(&name), tys, ret_copy);
                    proof {
                        assert(info@.args =~= args_v(args@).map_values(|a: (Seq<char>, TypeV)| a.1));
                        assert(info@.ret_ty == opt_type_v(*ret));
                    }
                    let ghost p0 = infos_v(module.pub_func@);
                    module.pub_func.push(info);
                    assert(infos_v(module.pub_func@) =~= p0.push(info@));
                },
                _ => {},
            }
            i = i + 1;
        }
        assert(all.take(ast.len() as int) =~= all);
    }
}

/// A prefix has no more public functions than the whole.
pub proof fn lemma_count_pub_prefix(ast: Seq<StmtV>, k: int)
    requires
        0 <= k <= ast.len(),
    ensures
        forall|j: int| 0 <= j <= k ==> count_pub(#[trigger] ast.take(j)) <= count_pub(ast.take(k)),
    decreases k,
{
    if k > 0 {
        lemma_count_pub_prefix(ast, k - 1);
        assert(ast.take(k).drop_last() =~= ast.take(k - 1));
    }
    if k == ast.len() {
        assert(ast.take(k) =~= ast);
    }
}

/// The collector records one entry per public function, the `i`-th under `f` and the
/// counter plus `i`.
proof fn lemma_collected_names(ast: Seq<StmtV>, m: nat)
    ensures
        collected(ast, m).len() == count_pub(ast),
        forall|i: int| 0 <= i < count_pub(ast) ==> (#[trigger] collected(ast, m)[i]).id_mangled == "f"@ + dec(m + i as nat),
    decreases ast.len(),
{
    if ast.len() > 0 {
        lemma_collected_names(ast.drop_last(), m);
    }
}

/// Mangled names are never handed out twice: within one file's functions, and between
/// a file and the next one collected with the counter where the first left it.
pub proof fn law_mangled_names_distinct(ast: Seq<StmtV>, next: Seq<StmtV>, m: nat)
    ensures
        collected(ast, m).len() == count_pub(ast),
        forall|i: int, j: int| 0 <= i < j < collected(ast, m).len() ==> (#[trigger] collected(ast, m)[i]).id_mangled != (#[trigger] collected(ast, m)[j]).id_mangled,
        forall|i: int, j: int| 0 <= i < collected(ast, m).len() && 0 <= j < collected(next, m + count_pub(ast)).len()
            ==> (#[trigger] collected(ast, m)[i]).id_mangled != (#[trigger] collected(next, m + count_pub(ast))[j]).id_mangled,
{
    reveal_strlit("f");
    let m2 = m + count_pub(ast);
    lemma_collected_names(ast, m);
    lemma_collected_names(next, m2);
    assert forall|i: int, j: int| 0 <= i < j < collected(ast, m).len() implies (#[trigger] collected(ast, m)[i]).id_mangled != (#[trigger] collected(ast, m)[j]).id_mangled by {
        let a = collected(ast, m)[i].id_mangled;
        let b = collected(ast, m)[j].id_mangled;
        if a == b {
            assert(a.skip(1) =~= dec(m + i as nat));
            assert(b.skip(1) =~= dec(m + j as nat));
            lemma_dec_injective(m + i as nat, m + j as nat);
        }
    }
    assert forall|i: int, j: int| 0 <= i < collected(ast, m).len() && 0 <= j < collected(next, m2).len()
        implies (#[trigger] collected(ast, m)[i]).id_mangled != (#[trigger] collected(next, m2)[j]).id_mangled by {
        let a = collected(ast, m)[i].id_mangled;
        let b = collected(next, m2)[j].id_mangled;
        if a == b {
            assert(a.skip(1) =~= dec(m + i as nat));
            assert(b.skip(1) =~= dec(m2 + j as nat));
            lemma_dec_injective(m + i as nat, m2 + j as nat);
        }
    }
}

/// The public function declarations among `ast`, in order.
pub open spec fn public_functions(ast: Seq<StmtV>) -> Seq<StmtV>
    decreases ast.len(),
{
    if ast.len() == 0 {
        Seq::empty()
    } else if ast.last() matches StmtV::Func(_, true, _, _, _, _) {
        public_functions(ast.drop_last()).push(ast.last())
    } else {
        public_functions(ast.drop_last())
    }
}

/// The collector records one entry per public function, in order: the `j`-th public
/// function under its own name and the mangled name `f` followed by `m + j`, with its
/// argument types in order and its return type.
pub proof fn law_collected_functions_keep_their_signatures(ast: Seq<StmtV>, m: nat)
    ensures
        collected(ast, m).len() == public_functions(ast).len(),
        forall|j: int| 0 <= j < collected(ast, m).len() ==> (#[trigger] public_functions(ast)[j] matches StmtV::Func(
            _,
            true,
            id,
            args,
            ret,
            _,
        ) && ({
            let info = collected(ast, m)[j];
            &&& info.id == id
            &&& info.id_mangled == "f"@ + dec((m + j) as nat)
            &&& info.ret_ty == ret
            &&& info.args.len() == args.len()
            &&& forall|k: int| 0 <= k < args.len() ==> #[trigger] info.args[k] == args[k].1
        })),
    decreases ast.len(),
{
    if ast.len() > 0 {
        let before = ast.drop_last();
        law_collected_functions_keep_their_signatures(before, m);
        lemma_count_is_public_length(before);
        let c = collected(ast, m);
        let pf = public_functions(ast);
        assert forall|j: int| 0 <= j < c.len() implies (#[trigger] pf[j] matches StmtV::Func(_, true, id, args, ret, _) && ({
            let info = c[j];
            &&& info.id == id
            &&& info.id_mangled == "f"@ + dec((m + j) as nat)
            &&& info.ret_ty == ret
            &&& info.args.len() == args.len()
            &&& forall|k: int| 0 <= k < args.len() ==> #[trigger] info.args[k] == args[k].1
        })) by {
            if j < collected(before, m).len() {
                assert(c[j] == collected(before, m)[j]);
                assert(pf[j] == public_functions(before)[j]);
            }
        }
    }
}

proof fn lemma_count_is_public_length(ast: Seq<StmtV>)
    ensures
        count_pub(ast) == public_functions(ast).len(),
    decreases ast.len(),
{
    if ast.len() > 0 {
        lemma_count_is_public_length(ast.drop_last());
    }
}

} // verus!
