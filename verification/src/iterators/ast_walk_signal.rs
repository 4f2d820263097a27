use vstd::prelude::*;

use crate::ast::{children, opt_box, opt_vec, walk, walk_list, Ast, LocatedAst, SpecSignal};

verus! {

/// A traversal event for an AST node: `Enter` when its visit begins, `Exit` when it ends.
#[derive(Clone, Copy)]
pub enum WalkSignal<'a> {
    Exit(&'a LocatedAst),
    Enter(&'a LocatedAst),
}

impl<'a> View for WalkSignal<'a> {
    type V = SpecSignal;

    open spec fn view(&self) -> SpecSignal {
        match *self {
            WalkSignal::Exit(n) => SpecSignal::Exit(*n),
            WalkSignal::Enter(n) => SpecSignal::Enter(*n),
        }
    }
}

/// The nodes behind a list of references.
pub open spec fn derefs<'a>(s: Seq<&'a LocatedAst>) -> Seq<LocatedAst> {
    s.map_values(|x: &'a LocatedAst| *x)
}

/// The steps that one pending signal stands for.
pub open spec fn expand(s: SpecSignal) -> Seq<SpecSignal> {
    match s {
        SpecSignal::Enter(n) => walk(n),
        SpecSignal::Exit(n) => seq![SpecSignal::Exit(n)],
    }
}

/// The steps that a stack of pending signals stands for, the top of the stack first.
pub open spec fn pending(st: Seq<SpecSignal>) -> Seq<SpecSignal>
    decreases st.len(),
{
    if st.len() == 0 {
        Seq::empty()
    } else {
        expand(st.last()) + pending(st.drop_last())
    }
}

/// The views of a stack of signals.
pub open spec fn signal_views<'a>(st: Seq<WalkSignal<'a>>) -> Seq<SpecSignal> {
    st.map_values(|w: WalkSignal<'a>| w@)
}

/// An iterator that walks through AST nodes in the order they would be visited by an interpreter.
/// Each iteration yields a `WalkSignal` marking entry or exit from a node.
pub struct AstWalkSignal<'a> {
    stack: Vec<WalkSignal<'a>>,
}

impl<'a> View for AstWalkSignal<'a> {
    type V = Seq<SpecSignal>;

    /// The signals still to come.
    closed spec fn view(&self) -> Seq<SpecSignal> {
        pending(signal_views(self.stack@))
    }
}

proof fn lemma_pending_empty(st: Seq<SpecSignal>)
    ensures
        (pending(st).len() == 0) == (st.len() == 0),
{
    if st.len() > 0 {
        match st.last() {
            SpecSignal::Enter(n) => { assert(walk(n)[0] == SpecSignal::Enter(n)); },
            SpecSignal::Exit(n) => {},
        }
    }
}

impl<'a> WalkSignal<'a> {
    /// Whether this is the entry into a function definition.
    pub fn is_entering_function(&self) -> (r: bool)
        ensures
            r == (self@ matches SpecSignal::Enter(n) && n.ast is Fun),
    {
        match self {
            WalkSignal::Enter(n) => matches!(n.ast, Ast::Fun { .. }),
            _ => false,
        }
    }

    /// On the exit from a function definition, the definition and its body.
    pub fn is_exiting_function(&self) -> (r: Option<(&'a LocatedAst, &'a LocatedAst)>)
        ensures
            match self@ {
                SpecSignal::Exit(n) => match n.ast {
                    Ast::Fun { body, .. } => (r matches Some(p) && *p.0 == n && *p.1 == *body),
                    _ => r is None,
                },
                _ => r is None,
            },
    {
        match *self {
            WalkSignal::Exit(n) => match &n.ast {
                Ast::Fun { body, .. } => Some((n, &**body)),
                _ => None,
            },
            _ => None,
        }
    }

    /// On the entry into a function call, its name, its parameters and its identifier.
    pub fn is_entering_fun_call(&self) -> (r: Option<(&'a LocatedAst, &'a Option<Vec<LocatedAst>>, u128)>)
        ensures
            match self@ {
                SpecSignal::Enter(n) => match n.ast {
                    Ast::FunCall { name, params, uuid } => (r matches Some(p) && *p.0 == *name
                        && *p.1 == params && p.2 == uuid),
                    _ => r is None,
                },
                _ => r is None,
            },
    {
        match *self {
            WalkSignal::Enter(n) => match &n.ast {
                Ast::FunCall { name, params, uuid } => Some((&**name, params, *uuid)),
                _ => None,
            },
            _ => None,
        }
    }
}

proof fn lemma_derefs_push<'a>(s: Seq<&'a LocatedAst>, x: &'a LocatedAst)
    ensures
        derefs(s.push(x)) == derefs(s).push(*x),
{
    assert(derefs(s.push(x)) =~= derefs(s).push(*x));
}

fn push_box<'a>(out: &mut Vec<&'a LocatedAst>, b: &'a Box<LocatedAst>)
    ensures
        derefs(final(out)@) == derefs(old(out)@).push(**b),
{
    out.push(&**b);
    proof {
        lemma_derefs_push(old(out)@, &**b);
    }
}

fn push_opt_box<'a>(out: &mut Vec<&'a LocatedAst>, o: &'a Option<Box<LocatedAst>>)
    ensures
        derefs(final(out)@) == derefs(old(out)@) + opt_box(*o),
{
    match o {
        Some(b) => {
            push_box(out, b);
            assert(derefs(old(out)@).push(**b) =~= derefs(old(out)@) + opt_box(*o));
        },
        None => {
            assert(derefs(old(out)@) =~= derefs(old(out)@) + opt_box(*o));
        },
    }
}

fn push_all<'a>(out: &mut Vec<&'a LocatedAst>, v: &'a Vec<LocatedAst>)
    ensures
        derefs(final(out)@) == derefs(old(out)@) + v@,
{
    let ghost start = derefs(out@);
    let mut i: usize = 0;
    while i < v.len()
        invariant
            i <= v@.len(),
            derefs(out@) == start + v@.take(i as int),
        decreases v@.len() - i,
    {
        let ghost prev = out@;
        out.push(&v[i]);
        proof {
            lemma_derefs_push(prev, &v@[i as int]);
            assert(v@.take(i + 1) =~= v@.take(i as int).push(v@[i as int]));
            assert(derefs(out@) =~= start + v@.take(i + 1));
        }
        i += 1;
    }
    assert(v@.take(i as int) =~= v@);
}

fn push_opt_vec<'a>(out: &mut Vec<&'a LocatedAst>, o: &'a Option<Vec<LocatedAst>>)
    ensures
        derefs(final(out)@) == derefs(old(out)@) + opt_vec(*o),
{
    match o {
        Some(v) => { push_all(out, v); },
        None => {
            assert(derefs(old(out)@) =~= derefs(old(out)@) + opt_vec(*o));
        },
    }
}

/// The children of `node`, in the order an interpreter visits them.
pub fn children_of<'a>(node: &'a LocatedAst) -> (r: Vec<&'a LocatedAst>)
    ensures
        derefs(r@) == children(*node),
{
    let mut out: Vec<&'a LocatedAst> = Vec::new();
    assert(derefs(out@) =~= Seq::<LocatedAst>::empty());
    match &node.ast {
        Ast::Program(e) => { push_box(&mut out, e); },
        Ast::Add { lhs, rhs }
        | Ast::Sub { lhs, rhs }
        | Ast::Mul { lhs, rhs }
        | Ast::Div { lhs, rhs }
        | Ast::Pow { lhs, rhs }
        | Ast::LogicalAndOr { lhs, rhs, .. }
        | Ast::Cmp { lhs, rhs, .. }
        | Ast::AndOr { lhs, rhs, .. }
        | Ast::ModShift { lhs, rhs, .. }
        | Ast::Assignment { lhs, rhs, .. } => {
            push_box(&mut out, lhs);
            push_box(&mut out, rhs);
        },
        Ast::Compound { expressions, .. } => { push_all(&mut out, expressions); },
        Ast::String { value: _, next } => { push_opt_box(&mut out, next); },
        Ast::FunMod { kind: _, args, commas } => {
            push_opt_vec(&mut out, args);
            push_opt_box(&mut out, commas);
        },
        Ast::Arg { identifier, .. } => { push_box(&mut out, identifier); },
        Ast::Fun { identifier, modifiers, body, args, .. } => {
            push_box(&mut out, identifier);
            push_opt_vec(&mut out, args);
            push_opt_vec(&mut out, modifiers);
            push_box(&mut out, body);
        },
        Ast::If { condition, yes, no } => {
            push_box(&mut out, condition);
            push_opt_box(&mut out, yes);
            push_opt_box(&mut out, no);
        },
        Ast::Unary { operator: _, operand } => { push_box(&mut out, operand); },
        Ast::FunCall { name, params, .. } => {
            push_box(&mut out, name);
            push_opt_vec(&mut out, params);
        },
        Ast::MemoryAccess { rvalue, index } => {
            push_box(&mut out, rvalue);
            push_opt_box(&mut out, index);
        },
        Ast::Loop { count, body } => {
            push_box(&mut out, count);
            push_box(&mut out, body);
        },
        Ast::While { condition, body } => {
            push_opt_box(&mut out, condition);
            push_opt_box(&mut out, body);
        },
        Ast::Identifier { .. }
        | Ast::StringIdentifier { .. }
        | Ast::Unnecessary { .. }
        | Ast::Number(_)
        | Ast::Void
        | Ast::CharLit(_) => {},
    }
    proof {
        let e = Seq::<LocatedAst>::empty();
        assert(derefs(out@) =~= children(*node));
    }
    out
}

impl<'a> AstWalkSignal<'a> {
    /// A walk that starts by entering `root` (and never leaves it).
    pub fn new(root: &'a LocatedAst) -> (r: Self)
        ensures
            r@ == walk(*root),
    {
        let r = AstWalkSignal { stack: vec![WalkSignal::Enter(root)] };
        proof {
            let st = signal_views(r.stack@);
            assert(st.drop_last() =~= Seq::<SpecSignal>::empty());
            assert(pending(st.drop_last()) == Seq::<SpecSignal>::empty());
            assert(st.last() == SpecSignal::Enter(*root));
            assert(pending(st) =~= walk(*root));
        }
        r
    }

    /// The next signal of the walk, if any is left.
    pub fn next(&mut self) -> (r: Option<WalkSignal<'a>>)
        ensures
            old(self)@.len() == 0 ==> r is None && final(self)@ == old(self)@,
            old(self)@.len() > 0 ==> (r matches Some(s) && s@ == old(self)@[0] && final(self)@
                == old(self)@.drop_first()),
    {
        proof {
            lemma_pending_empty(signal_views(self.stack@));
        }
        if self.stack.len() == 0 {
            return None;
        }
        let ghost old_stack = signal_views(self.stack@);
        let cur = self.stack.pop().unwrap();
        let ghost rest = signal_views(self.stack@);
        proof {
            assert(old_stack.drop_last() =~= rest);
            assert(old_stack.last() == cur@);
        }
        if let WalkSignal::Enter(cur_ast) = cur {
            let ch = children_of(cur_ast);
            let ghost chs = derefs(ch@);
            let mut k = ch.len();
            proof {
                assert(chs.subrange(k as int, chs.len() as int) =~= Seq::<LocatedAst>::empty());
            }
            while k > 0
                invariant
                    k <= ch@.len(),
                    chs == derefs(ch@),
                    pending(signal_views(self.stack@)) == walk_list(
                        chs.subrange(k as int, chs.len() as int),
                    ) + pending(rest),
                decreases k,
            {
                k -= 1;
                let ghost before = signal_views(self.stack@);
                self.stack.push(WalkSignal::Exit(ch[k]));
                self.stack.push(WalkSignal::Enter(ch[k]));
                proof {
                    let after = signal_views(self.stack@);
                    let c = chs[k as int];
                    assert(after.drop_last().drop_last() =~= before);
                    assert(after.last() == SpecSignal::Enter(c));
                    assert(after.drop_last().last() == SpecSignal::Exit(c));
                    let tail = chs.subrange(k as int, chs.len() as int);
                    assert(tail[0] == c);
                    assert(tail.subrange(1, tail.len() as int) =~= chs.subrange(
                        k + 1,
                        chs.len() as int,
                    ));
                    assert(pending(after.drop_last()) == seq![SpecSignal::Exit(c)] + pending(
                        after.drop_last().drop_last(),
                    ));
                    assert(pending(after) == walk(c) + pending(after.drop_last()));
                    assert(pending(after) =~= walk_list(tail) + pending(rest));
                }
            }
            proof {
                assert(chs.subrange(0, chs.len() as int) =~= chs);
                assert(old_stack.len() > 0);
                assert(pending(old_stack) == walk(*cur_ast) + pending(rest));
                assert(walk(*cur_ast) == seq![SpecSignal::Enter(*cur_ast)] + walk_list(
                    children(*cur_ast),
                ));
                assert(pending(old_stack).drop_first() =~= pending(signal_views(self.stack@)));
            }
        } else {
            proof {
                assert(pending(old_stack).drop_first() =~= pending(rest));
            }
        }
        Some(cur)
    }
}

} // verus!
