//! Type designators.

use vstd::prelude::*;
use vstd::string::StringExecFns;

verus! {

/// What a type designator is, as a mathematical value.
pub enum TypeView {
    Int,
    Char,
    Short,
    Long,
    LongLong,
    Func(Box<TypeView>, Seq<char>, Option<Seq<TypeView>>),
    Ptr(Box<TypeView>),
    Void,
}

/// A type of the source language. A function type names its return type, the
/// function, and, where they are declared, the types of its parameters.
#[derive(Debug)]
pub enum TypeInstance {
    Int,
    Char,
    Short,
    Long,
    LongLong,
    Func(Box<TypeInstance>, String, Option<Vec<TypeInstance>>),
    Ptr(Box<TypeInstance>),
    Void,
}

/// The view of a type designator.
pub open spec fn type_view(ty: TypeInstance) -> TypeView
    decreases ty,
{
    match ty {
        TypeInstance::Int => TypeView::Int,
        TypeInstance::Char => TypeView::Char,
        TypeInstance::Short => TypeView::Short,
        TypeInstance::Long => TypeView::Long,
        TypeInstance::LongLong => TypeView::LongLong,
        TypeInstance::Func(ret, name, params) => TypeView::Func(
            Box::new(type_view(*ret)),
            name@,
            match params {
                Some(ps) => Some(type_views(ps@)),
                None => None,
            },
        ),
        TypeInstance::Ptr(inner) => TypeView::Ptr(Box::new(type_view(*inner))),
        TypeInstance::Void => TypeView::Void,
    }
}

/// The views of a run of type designators.
pub open spec fn type_views(types: Seq<TypeInstance>) -> Seq<TypeView>
    decreases types,
{
    if types.len() == 0 {
        Seq::empty()
    } else {
        type_views(types.drop_last()).push(type_view(types.last()))
    }
}

impl View for TypeInstance {
    type V = TypeView;

    open spec fn view(&self) -> TypeView {
        type_view(*self)
    }
}

/// Taking the views of a run that ends in `last`.
pub proof fn lemma_type_views_push(types: Seq<TypeInstance>, last: TypeInstance)
    ensures
        type_views(types.push(last)) == type_views(types).push(type_view(last)),
{
    assert(types.push(last).drop_last() =~= types);
}

/// How a type designator is written.
pub open spec fn type_text(ty: TypeView) -> Seq<char>
    decreases ty,
{
    match ty {
        TypeView::Char => "char"@,
        TypeView::Int => "int"@,
        TypeView::Short => "short"@,
        TypeView::Long => "long"@,
        TypeView::LongLong => "long long"@,
        TypeView::Void => "void"@,
        TypeView::Func(ret, name, params) => type_text(*ret) + " "@ + name + match params {
            Some(ps) => params_text(ps),
            None => "()"@,
        } + "\n"@,
        TypeView::Ptr(inner) => "*"@ + type_text(*inner),
    }
}

/// How the parameter types of a function type are written: each followed by
/// a comma.
pub open spec fn params_text(params: Seq<TypeView>) -> Seq<char>
    decreases params,
{
    if params.len() == 0 {
        Seq::empty()
    } else {
        params_text(params.drop_last()) + type_text(params.last()) + ","@
    }
}

impl Clone for TypeInstance {
    fn clone(&self) -> (copy: Self)
        ensures
            copy@ == self@,
        decreases self,
    {
        match self {
            TypeInstance::Int => TypeInstance::Int,
            TypeInstance::Char => TypeInstance::Char,
            TypeInstance::Short => TypeInstance::Short,
            TypeInstance::Long => TypeInstance::Long,
            TypeInstance::LongLong => TypeInstance::LongLong,
            TypeInstance::Void => TypeInstance::Void,
            TypeInstance::Ptr(inner) => TypeInstance::Ptr(Box::new((&**inner).clone())),
            TypeInstance::Func(ret, name, params) => {
                let ret_copy = (&**ret).clone();
                let params_copy = match params {
                    Some(ps) => {
                        let mut copies: Vec<TypeInstance> = Vec::new();
                        let mut i: usize = 0;
                        while i < ps.len()
                            invariant
                                i <= ps.len(),
                                type_views(copies@) == type_views(ps@.take(i as int)),
                                forall|j: int| 0 <= j < ps.len() ==> decreases_to!(self => ps[j]),
                            decreases ps.len() - i,
                        {
                            let copy = ps[i].clone();
                            proof {
                                lemma_type_views_push(copies@, copy);
                                lemma_type_views_push(ps@.take(i as int), ps@[i as int]);
                                assert(ps@.take(i as int + 1) =~= ps@.take(i as int).push(
                                    ps@[i as int],
                                ));
                            }
                            copies.push(copy);
                            i = i + 1;
                        }
                        proof {
                            assert(ps@.take(ps.len() as int) =~= ps@);
                        }
                        Some(copies)
                    },
                    None => None,
                };
                TypeInstance::Func(Box::new(ret_copy), name.clone(), params_copy)
            },
        }
    }
}

impl TypeInstance {
    /// The designator as text.
    pub fn to_string(&self) -> (s: String)
        ensures
            s@ == type_text(self@),
        decreases self,
    {
        match self {
            TypeInstance::Char => String::from_str("char"),
            TypeInstance::Int => String::from_str("int"),
            TypeInstance::Short => String::from_str("short"),
            TypeInstance::Long => String::from_str("long"),
            TypeInstance::LongLong => String::from_str("long long"),
            TypeInstance::Void => String::from_str("void"),
            TypeInstance::Ptr(inner) => {
                let mut s = String::from_str("*");
                let rest = (&**inner).to_string();
                s.append(rest.as_str());
                s
            },
            TypeInstance::Func(ret, name, params) => {
                let mut s = (&**ret).to_string();
                s.append(" ");
                s.append(name.as_str());
                let ghost head = s@;
                match params {
                    Some(ps) => {
                        let mut i: usize = 0;
                        while i < ps.len()
                            invariant
                                i <= ps.len(),
                                s@ == head + params_text(type_views(ps@.take(i as int))),
                                forall|j: int| 0 <= j < ps.len() ==> decreases_to!(self => ps[j]),
                            decreases ps.len() - i,
                        {
                            let one = ps[i].to_string();
                            s.append(one.as_str());
                            s.append(",");
                            proof {
                                let before = type_views(ps@.take(i as int));
                                lemma_type_views_push(ps@.take(i as int), ps@[i as int]);
                                assert(ps@.take(i as int + 1) =~= ps@.take(i as int).push(
                                    ps@[i as int],
                                ));
                                assert(before.push(type_view(ps@[i as int])).drop_last() =~= before);
                            }
                            i = i + 1;
                        }
                        proof {
                            assert(ps@.take(ps.len() as int) =~= ps@);
                        }
                    },
                    None => {
                        s.append("()");
                    },
                }
                s.append("\n");
                s
            },
        }
    }
}

} // verus!
