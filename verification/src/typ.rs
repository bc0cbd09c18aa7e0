//! Types of the language, their mathematical model and their printed form.
use vstd::prelude::*;
use crate::text;
use crate::text::{push_decimal, push_joined, push_str};

verus! {

/// A type of the language.
#[derive(Debug)]
pub enum Type {
    Int,
    Bool,
    Byte,
    Ptr(Box<Type>),
    Arr(Box<Type>, usize),
    Func { name: String, args: Vec<Box<Type>>, ret_type: Box<Type> },
}

/// The mathematical model of a [`Type`]: names are character sequences.
pub enum TypeV {
    Int,
    Bool,
    Byte,
    Ptr(Box<TypeV>),
    Arr(Box<TypeV>, usize),
    Func { name: Seq<char>, args: Seq<TypeV>, ret_type: Box<TypeV> },
}

pub open spec fn type_view(t: Type) -> TypeV
    decreases t,
{
    match t {
        Type::Int => TypeV::Int,
        Type::Bool => TypeV::Bool,
        Type::Byte => TypeV::Byte,
        Type::Ptr(inner) => TypeV::Ptr(Box::new(type_view(*inner))),
        Type::Arr(inner, n) => TypeV::Arr(Box::new(type_view(*inner)), n),
        Type::Func { name, args, ret_type } => TypeV::Func {
            name: name@,
            args: types_view(args@),
            ret_type: Box::new(type_view(*ret_type)),
        },
    }
}

pub open spec fn types_view(s: Seq<Box<Type>>) -> Seq<TypeV>
    decreases s,
{
    if s.len() == 0 {
        seq![]
    } else {
        types_view(s.drop_last()).push(type_view(*s.last()))
    }
}

impl View for Type {
    type V = TypeV;

    open spec fn view(&self) -> TypeV {
        type_view(*self)
    }
}

pub proof fn lemma_types_view(s: Seq<Box<Type>>)
    ensures
        types_view(s).len() == s.len(),
        forall|i: int| 0 <= i < s.len() ==> #[trigger] types_view(s)[i] == type_view(*s[i]),
    decreases s.len(),
{
    if s.len() > 0 {
        lemma_types_view(s.drop_last());
    }
}

pub proof fn lemma_types_view_push(s: Seq<Box<Type>>, t: Box<Type>)
    ensures
        types_view(s.push(t)) == types_view(s).push(type_view(*t)),
{
    assert(s.push(t).drop_last() == s);
}

/// The printed form of a type, as in `int`, `ptr<byte>`, `int[3]` or `((int,bool) -> int)`.
pub open spec fn type_text(t: TypeV) -> Seq<char>
    decreases t,
{
    match t {
        TypeV::Int => "int"@,
        TypeV::Bool => "bool"@,
        TypeV::Byte => "byte"@,
        TypeV::Arr(inner, n) => type_text(*inner) + "["@ + text::decimal(n as nat) + "]"@,
        TypeV::Ptr(inner) => "ptr<"@ + type_text(*inner) + ">"@,
        TypeV::Func { name, args, ret_type } => "(("@ + text::join(types_text(args), ","@) + ") -> "@
            + type_text(*ret_type) + ")"@,
    }
}

pub open spec fn types_text(s: Seq<TypeV>) -> Seq<Seq<char>>
    decreases s,
{
    if s.len() == 0 {
        seq![]
    } else {
        types_text(s.drop_last()).push(type_text(s.last()))
    }
}

impl Type {
    /// A copy of the type with the same model.
    pub fn deep_copy(&self) -> (r: Type)
        ensures
            r@ == self@,
        decreases self,
    {
        match self {
            Type::Int => Type::Int,
            Type::Bool => Type::Bool,
            Type::Byte => Type::Byte,
            Type::Ptr(inner) => Type::Ptr(Box::new(inner.deep_copy())),
            Type::Arr(inner, n) => Type::Arr(Box::new(inner.deep_copy()), *n),
            Type::Func { name, args, ret_type } => {
                let mut v: Vec<Box<Type>> = Vec::new();
                let mut i: usize = 0;
                assert(decreases_to!(*self => *args));
                while i < args.len()
                    invariant
                        decreases_to!(*self => *args),
                        i <= args.len(),
                        types_view(v@) == types_view(args@.take(i as int)),
                    decreases args.len() - i,
                {
                    proof {
                        assert(decreases_to!(*args => args[i as int]));
                    }
                    let c = args[i].deep_copy();
                    proof {
                        lemma_types_view_push(v@, Box::new(c));
                        assert(args@.take(i + 1).drop_last() == args@.take(i as int));
                    }
                    v.push(Box::new(c));
                    i += 1;
                }
                assert(args@.take(args.len() as int) == args@);
                Type::Func { name: name.clone(), args: v, ret_type: Box::new(ret_type.deep_copy()) }
            },
        }
    }

    /// Whether two types have the same model.
    pub fn same(&self, other: &Type) -> (r: bool)
        ensures
            r == (self@ == other@),
        decreases self,
    {
        match (self, other) {
            (Type::Int, Type::Int) => true,
            (Type::Bool, Type::Bool) => true,
            (Type::Byte, Type::Byte) => true,
            (Type::Ptr(a), Type::Ptr(b)) => a.same(b),
            (Type::Arr(a, n), Type::Arr(b, m)) => *n == *m && a.same(b),
            (
                Type::Func { name: n1, args: a1, ret_type: r1 },
                Type::Func { name: n2, args: a2, ret_type: r2 },
            ) => {
                if !(*n1 == *n2) {
                    assert(self@->name != other@->name);
                    return false;
                }
                proof {
                    lemma_types_view(a1@);
                    lemma_types_view(a2@);
                }
                if a1.len() != a2.len() {
                    return false;
                }
                let mut i: usize = 0;
                assert(decreases_to!(*self => *a1));
                while i < a1.len()
                    invariant
                        decreases_to!(*self => *a1),
                        self@ is Func && other@ is Func,
                        self@->args == types_view(a1@),
                        other@->args == types_view(a2@),
                        i <= a1.len(),
                        a1.len() == a2.len(),
                        types_view(a1@).len() == a1.len(),
                        types_view(a2@).len() == a2.len(),
                        forall|j: int| 0 <= j < a1.len() ==> #[trigger] types_view(a1@)[j] == type_view(*a1@[j]),
                        forall|j: int| 0 <= j < a2.len() ==> #[trigger] types_view(a2@)[j] == type_view(*a2@[j]),
                        forall|j: int| 0 <= j < i ==> types_view(a1@)[j] == types_view(a2@)[j],
                    decreases a1.len() - i,
                {
                    proof {
                        assert(decreases_to!(*a1 => a1[i as int]));
                    }
                    if !a1[i].same(&a2[i]) {
                        assert(types_view(a1@)[i as int] != types_view(a2@)[i as int]);
                        assert(self@->args != other@->args);
                        return false;
                    }
                    i += 1;
                }
                assert(types_view(a1@) == types_view(a2@));
                r1.same(r2)
            },
            _ => {
                assert(self@ != other@) by {
                    match (*self, *other) {
                        (Type::Int, Type::Int) => {},
                        (Type::Bool, Type::Bool) => {},
                        (Type::Byte, Type::Byte) => {},
                        (Type::Ptr(_), Type::Ptr(_)) => {},
                        (Type::Arr(_, _), Type::Arr(_, _)) => {},
                        (Type::Func { .. }, Type::Func { .. }) => {},
                        _ => {},
                    }
                }
                false
            },
        }
    }

    /// Appends the printed form of the type.
    pub fn push_text(&self, s: &mut String)
        ensures
            final(s)@ == old(s)@ + type_text(self@),
        decreases self,
    {
        let ghost start = s@;
        match self {
            Type::Int => push_str(s, "int"),
            Type::Bool => push_str(s, "bool"),
            Type::Byte => push_str(s, "byte"),
            Type::Arr(inner, n) => {
                inner.push_text(s);
                push_str(s, "[");
                push_decimal(s, *n);
                push_str(s, "]");
                assert(s@ == start + type_text(self@));
            },
            Type::Ptr(inner) => {
                push_str(s, "ptr<");
                inner.push_text(s);
                push_str(s, ">");
                assert(s@ == start + type_text(self@));
            },
            Type::Func { name: _, args, ret_type } => {
                let mut parts: Vec<String> = Vec::new();
                let mut i: usize = 0;
                proof {
                    lemma_types_view(args@);
                }
                assert(decreases_to!(*self => *args));
                while i < args.len()
                    invariant
                        decreases_to!(*self => *args),
                        i <= args.len(),
                        types_view(args@).len() == args.len(),
                        forall|j: int| 0 <= j < args.len() ==> #[trigger] types_view(args@)[j] == type_view(*args@[j]),
                        parts@.map_values(|p: String| p@) == types_text(types_view(args@).take(i as int)),
                    decreases args.len() - i,
                {
                    proof {
                        assert(decreases_to!(*args => args[i as int]));
                    }
                    let mut part = String::new();
                    args[i].push_text(&mut part);
                    let ghost old_parts = parts@;
                    parts.push(part);
                    proof {
                        let tv = types_view(args@);
                        assert(tv.take(i + 1).drop_last() == tv.take(i as int));
                        assert(parts@.map_values(|p: String| p@) == old_parts.map_values(|p: String| p@).push(part@));
                    }
                    i += 1;
                }
                assert(types_view(args@).take(args.len() as int) == types_view(args@));
                push_str(s, "((");
                push_joined(s, &parts, ",");
                push_str(s, ") -> ");
                ret_type.push_text(s);
                push_str(s, ")");
                assert(s@ == start + type_text(self@));
            },
        }
    }

    /// The printed form of the type.
    pub fn to_text(&self) -> (r: String)
        ensures
            r@ == type_text(self@),
    {
        let mut s = String::new();
        self.push_text(&mut s);
        s
    }
}

impl PartialEq for Type {
    fn eq(&self, other: &Type) -> (r: bool) {
        self.same(other)
    }
}

impl vstd::std_specs::cmp::PartialEqSpecImpl for Type {
    open spec fn obeys_eq_spec() -> bool {
        true
    }

    open spec fn eq_spec(&self, other: &Type) -> bool {
        self@ == other@
    }
}

} // verus!
