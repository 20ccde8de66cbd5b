//! Types written in source code.
use crate::parser::Info;
use crate::text::{append_chars, chars_of, chars_of_string, push_str, string_of};
use vstd::prelude::*;

verus! {

#[derive(Debug)]
pub enum Type {
    Unknown,
    Void(Info),
    I32(Info),
    F32(Info),
    Bool(Info),
    Str(Info),
    Custom(String, Info),
    Array(Box<Type>, Info),
    Ptr(Box<Type>, Info),
}

/// A type as plain values.
pub enum TypeV {
    Unknown,
    Void(Info),
    I32(Info),
    F32(Info),
    Bool(Info),
    Str(Info),
    Custom(Seq<char>, Info),
    Array(Box<TypeV>, Info),
    Ptr(Box<TypeV>, Info),
}

pub open spec fn type_v(t: Type) -> TypeV
    decreases t,
{
    match t {
        Type::Unknown => TypeV::Unknown,
        Type::Void(i) => TypeV::Void(i),
        Type::I32(i) => TypeV::I32(i),
        Type::F32(i) => TypeV::F32(i),
        Type::Bool(i) => TypeV::Bool(i),
        Type::Str(i) => TypeV::Str(i),
        Type::Custom(s, i) => TypeV::Custom(s@, i),
        Type::Array(b, i) => TypeV::Array(Box::new(type_v(*b)), i),
        Type::Ptr(b, i) => TypeV::Ptr(Box::new(type_v(*b)), i),
    }
}

impl View for Type {
    type V = TypeV;

    open spec fn view(&self) -> TypeV {
        type_v(*self)
    }
}

/// How a type is written.
pub open spec fn type_text(t: TypeV) -> Seq<char>
    decreases t,
{
    match t {
        TypeV::Unknown => "UNKNOWN"@,
        TypeV::Void(_) => "void"@,
        TypeV::I32(_) => "i32"@,
        TypeV::F32(_) => "f32"@,
        TypeV::Bool(_) => "bool"@,
        TypeV::Str(_) => "string"@,
        TypeV::Custom(name, _) => name,
        TypeV::Array(b, _) => "["@ + type_text(*b) + "]"@,
        TypeV::Ptr(b, _) => "&"@ + type_text(*b),
    }
}

/// Position of a type; none for an unknown type.
pub open spec fn type_info(t: TypeV) -> Info {
    match t {
        TypeV::Unknown => Info { line: 0, offset: 0, len: 0 },
        TypeV::Void(i) => i,
        TypeV::I32(i) => i,
        TypeV::F32(i) => i,
        TypeV::Bool(i) => i,
        TypeV::Str(i) => i,
        TypeV::Custom(_, i) => i,
        TypeV::Array(_, i) => i,
        TypeV::Ptr(_, i) => i,
    }
}

/// The type a name stands for: a built-in type or a custom one.
pub open spec fn type_named(s: Seq<char>, info: Info) -> TypeV {
    if s == "i32"@ {
        TypeV::I32(info)
    } else if s == "f32"@ {
        TypeV::F32(info)
    } else if s == "bool"@ {
        TypeV::Bool(info)
    } else if s == "string"@ {
        TypeV::Str(info)
    } else {
        TypeV::Custom(s, info)
    }
}

fn str_eq(a: &String, b: &str) -> (r: bool)
    ensures
        r == (a@ == b@),
{
    let v = chars_of_string(a);
    crate::lexer::token::chars_eq(&v, b)
}

impl Type {
    pub fn info(&self) -> (i: Info)
        ensures
            i == type_info(self@),
    {
        match self {
            Type::Str(info) | Type::Void(info) | Type::I32(info) | Type::F32(info) | Type::Bool(info)
            | Type::Array(_, info) | Type::Custom(_, info) | Type::Ptr(_, info) => *info,
            Type::Unknown => Info { line: 0, offset: 0, len: 0 },
        }
    }

    /// The type named `s`.
    pub fn from_str(s: &String, info: Info) -> (t: Type)
        ensures
            t@ == type_named(s@, info),
    {
        if str_eq(s, "i32") {
            Type::I32(info)
        } else if str_eq(s, "f32") {
            Type::F32(info)
        } else if str_eq(s, "bool") {
            Type::Bool(info)
        } else if str_eq(s, "string") {
            Type::Str(info)
        } else {
            Type::Custom(s.clone(), info)
        }
    }

    /// How the type is written, as a string.
    pub fn to_string(&self) -> (s: String)
        ensures
            s@ == type_text(self@),
    {
        let v = self.text();
        string_of(&v)
    }

    /// How the type is written.
    pub fn text(&self) -> (r: Vec<char>)
        ensures
            r@ == type_text(self@),
        decreases self,
    {
        match self {
            Type::Unknown => chars_of("UNKNOWN"),
            Type::Void(_) => chars_of("void"),
            Type::I32(_) => chars_of("i32"),
            Type::F32(_) => chars_of("f32"),
            Type::Bool(_) => chars_of("bool"),
            Type::Str(_) => chars_of("string"),
            Type::Custom(name, _) => chars_of_string(name),
            Type::Array(b, _) => {
                let mut v = chars_of("[");
                let inner = b.text();
                append_chars(&mut v, &inner);
                push_str(&mut v, "]");
                v
            },
            Type::Ptr(b, _) => {
                let mut v = chars_of("&");
                let inner = b.text();
                append_chars(&mut v, &inner);
                v
            },
        }
    }

    /// A copy of the type.
    pub fn copy(&self) -> (r: Type)
        ensures
            r@ == self@,
        decreases self,
    {
        match self {
            Type::Unknown => Type::Unknown,
            Type::Void(i) => Type::Void(*i),
            Type::I32(i) => Type::I32(*i),
            Type::F32(i) => Type::F32(*i),
            Type::Bool(i) => Type::Bool(*i),
            Type::Str(i) => Type::Str(*i),
            Type::Custom(s, i) => Type::Custom(s.clone(), *i),
            Type::Array(b, i) => Type::Array(Box::new(b.copy()), *i),
            Type::Ptr(b, i) => Type::Ptr(Box::new(b.copy()), *i),
        }
    }
}

/// Arguments as they are written: `id: type, id: type`.
pub open spec fn args_text(args: Seq<(Seq<char>, TypeV)>) -> Seq<char>
    decreases args.len(),
{
    if args.len() == 0 {
        Seq::empty()
    } else if args.len() == 1 {
        args[0].0 + ": "@ + type_text(args[0].1)
    } else {
        args_text(args.drop_last()) + ", "@ + args.last().0 + ": "@ + type_text(args.last().1)
    }
}

pub open spec fn args_v(args: Seq<(String, Type)>) -> Seq<(Seq<char>, TypeV)> {
    args.map_values(|a: (String, Type)| (a.0@, a.1@))
}

/// The arguments of a function as they are written.
pub fn display_args(args: &Vec<(String, Type)>) -> (r: String)
    ensures
        r@ == args_text(args_v(args@)),
{
    let mut v: Vec<char> = Vec::new();
    let mut i: usize = 0;
    while i < args.len()
        invariant
            i <= args.len(),
            v@ == args_text(args_v(args@).take(i as int)),
        decreases args.len() - i,
    {
        let ghost before = args_v(args@).take(i as int);
        if i > 0 {
            push_str(&mut v, ", ");
        }
        let name = chars_of_string(&args[i].0);
        append_chars(&mut v, &name);
        push_str(&mut v, ": ");
        let ty = args[i].1.text();
        append_chars(&mut v, &ty);
        proof {
            let after = args_v(args@).take(i + 1);
            assert(after.drop_last() =~= before);
            assert(after.last() == (args@[i as int].0@, args@[i as int].1@));
            if i == 0 {
                assert(after.len() == 1);
            }
        }
        i = i + 1;
    }
    assert(args_v(args@).take(args.len() as int) =~= args_v(args@));
    string_of(&v)
}

/// A type made from a name is written back as that name, and keeps its position.
pub proof fn law_type_name_round_trip(s: Seq<char>, info: Info)
    ensures
        type_text(type_named(s, info)) == s,
        type_info(type_named(s, info)) == info,
{
}

} // verus!
