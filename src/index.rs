use vstd::prelude::*;
use crate::ast;
use crate::errors::Error;
use crate::text::{push_str, str_eq, string_from_chars};

verus! {

/// A resolved type.
#[derive(Debug)]
pub enum Ty {
    Void,
    Named(String),
    Pointer(Box<Ty>),
}

/// What a top-level name stands for.
#[derive(Debug)]
pub enum Item {
    Function { params: Vec<(String, Ty)>, return_ty: Ty },
    Struct { fields: Vec<(String, Ty)> },
}

/// The top-level names of a program, each with what it declares, in
/// declaration order; no name occurs twice.
#[derive(Debug)]
pub struct Index(pub Vec<(String, Item)>);

/// `t` is the resolved form of the written type `a`.
pub open spec fn ty_lowers_to(a: ast::Ty, t: Ty) -> bool
    decreases a,
{
    match a {
        ast::Ty::Void => t is Void,
        ast::Ty::Named(n) => match t {
            Ty::Named(m) => m@ == n@,
            _ => false,
        },
        ast::Ty::Pointer(inner) => match t {
            Ty::Pointer(u) => ty_lowers_to(*inner, *u),
            _ => false,
        },
    }
}

/// `b` is `a` with every type resolved and every name kept.
pub open spec fn fields_lower_to(a: Seq<(String, ast::Ty)>, b: Seq<(String, Ty)>) -> bool {
    &&& a.len() == b.len()
    &&& forall|i: int| 0 <= i < a.len() ==> b[i].0@ == a[i].0@ && ty_lowers_to(a[i].1, b[i].1)
}

/// `it` is what the declaration `k` declares.
pub open spec fn item_lowers_to(k: ast::ItemKind, it: Item) -> bool {
    match k {
        ast::ItemKind::Function { params, return_ty, .. } => match it {
            Item::Function { params: p, return_ty: r } => fields_lower_to(params@, p@) && ty_lowers_to(
                return_ty,
                r,
            ),
            _ => false,
        },
        ast::ItemKind::Struct { fields, .. } => match it {
            Item::Struct { fields: f } => fields_lower_to(fields@, f@),
            _ => false,
        },
    }
}

/// Declaration `i` reuses a name declared before it.
pub open spec fn repeats_earlier(items: Seq<ast::Item>, i: int) -> bool {
    exists|j: int| 0 <= j < i && #[trigger] items[j].kind.spec_name() == items[i].kind.spec_name()
}

/// The message for a name declared twice.
pub open spec fn duplicate_message(name: Seq<char>) -> Seq<char> {
    "`"@ + name + "` already defined"@
}

impl Index {
    /// No name occurs twice.
    pub open spec fn wf(&self) -> bool {
        forall|i: int, j: int|
            0 <= i < j < self.0@.len() ==> #[trigger] self.0@[i].0@ != #[trigger] self.0@[j].0@
    }

    /// What `name` stands for, if it is declared.
    pub fn get(&self, name: &str) -> (r: Option<&Item>)
        ensures
            match r {
                Some(it) => exists|i: int|
                    0 <= i < self.0@.len() && self.0@[i].0@ == name@ && *it == #[trigger] self.0@[i].1,
                None => forall|i: int| 0 <= i < self.0@.len() ==> #[trigger] self.0@[i].0@ != name@,
            },
    {
        let mut i: usize = 0;
        while i < self.0.len()
            invariant
                i <= self.0.len(),
                forall|k: int| 0 <= k < i ==> #[trigger] self.0@[k].0@ != name@,
            decreases self.0.len() - i,
        {
            if str_eq(self.0[i].0.as_str(), name) {
                return Some(&self.0[i].1);
            }
            i = i + 1;
        }
        None
    }
}

fn lower_ty(ty: &ast::Ty) -> (r: Ty)
    ensures
        ty_lowers_to(*ty, r),
    decreases ty,
{
    match ty {
        ast::Ty::Void => Ty::Void,
        ast::Ty::Named(name) => Ty::Named(name.clone()),
        ast::Ty::Pointer(inner) => Ty::Pointer(Box::new(lower_ty(inner))),
    }
}

fn lower_fields(fields: &Vec<(String, ast::Ty)>) -> (r: Vec<(String, Ty)>)
    ensures
        fields_lower_to(fields@, r@),
{
    let mut r: Vec<(String, Ty)> = Vec::new();
    let mut i: usize = 0;
    while i < fields.len()
        invariant
            i <= fields.len(),
            r@.len() == i,
            forall|k: int| 0 <= k < i ==> r@[k].0@ == fields@[k].0@ && ty_lowers_to(fields@[k].1, r@[k].1),
        decreases fields.len() - i,
    {
        r.push((fields[i].0.clone(), lower_ty(&fields[i].1)));
        i = i + 1;
    }
    r
}

/// Collect the top-level declarations by name.  Fails at the first
/// declaration whose name was already declared, reporting that declaration.
pub fn index(ast: &[ast::Item]) -> (r: Result<Index, Error>)
    ensures
        r is Ok <==> forall|i: int| 0 <= i < ast@.len() ==> !repeats_earlier(ast@, i),
        r matches Ok(idx) ==> {
            &&& idx.wf()
            &&& idx.0@.len() == ast@.len()
            &&& forall|i: int|
                0 <= i < ast@.len() ==> #[trigger] idx.0@[i].0@ == ast@[i].kind.spec_name()
                    && item_lowers_to(ast@[i].kind, idx.0@[i].1)
        },
        r matches Err(e) ==> exists|d: int|
            0 <= d < ast@.len() && #[trigger] repeats_earlier(ast@, d) && (forall|i: int|
                0 <= i < d ==> !repeats_earlier(ast@, i)) && e.message@ == duplicate_message(
                ast@[d].kind.spec_name(),
            ) && e.range.start == ast@[d].range.start && e.range.end == ast@[d].range.end,
{
    let mut map: Vec<(String, Item)> = Vec::new();
    let mut i: usize = 0;
    while i < ast.len()
        invariant
            i <= ast@.len(),
            map@.len() == i,
            forall|k: int|
                0 <= k < i ==> #[trigger] map@[k].0@ == ast@[k].kind.spec_name() && item_lowers_to(
                    ast@[k].kind,
                    map@[k].1,
                ),
            forall|k: int| 0 <= k < i ==> !repeats_earlier(ast@, k),
        decreases ast@.len() - i,
    {
        let item_ast = &ast[i];
        let (name, item) = match &item_ast.kind {
            ast::ItemKind::Function { name, params, return_ty } => {
                let params = lower_fields(params);
                let return_ty = lower_ty(return_ty);
                (name.clone(), Item::Function { params, return_ty })
            },
            ast::ItemKind::Struct { name, fields } => {
                let fields = lower_fields(fields);
                (name.clone(), Item::Struct { fields })
            },
        };
        let mut j: usize = 0;
        while j < i
            invariant
                j <= i,
                i < ast@.len(),
                map@.len() == i,
                name@ == ast@[i as int].kind.spec_name(),
                *item_ast == ast@[i as int],
                forall|k: int| 0 <= k < i ==> !repeats_earlier(ast@, k),
                forall|k: int| 0 <= k < i ==> #[trigger] map@[k].0@ == ast@[k].kind.spec_name(),
                forall|k: int| 0 <= k < j ==> #[trigger] map@[k].0@ != name@,
            decreases i - j,
        {
            if map[j].0 == name {
                let mut message = Vec::new();
                push_str(&mut message, "`");
                push_str(&mut message, name.as_str());
                push_str(&mut message, "` already defined");
                assert(message@ =~= duplicate_message(name@));
                assert(ast@[j as int].kind.spec_name() == ast@[i as int].kind.spec_name());
                assert(repeats_earlier(ast@, i as int));
                let err = Error {
                    message: string_from_chars(message),
                    range: std::ops::Range { start: item_ast.range.start, end: item_ast.range.end },
                };
                assert(err.message@ == duplicate_message(ast@[i as int].kind.spec_name()));
                assert(err.range.start == ast@[i as int].range.start);
                return Err(err);
            }
            j = j + 1;
        }
        assert(!repeats_earlier(ast@, i as int)) by {
            if repeats_earlier(ast@, i as int) {
                let j = choose|j: int|
                    0 <= j < i && #[trigger] ast@[j].kind.spec_name() == ast@[i as int].kind.spec_name();
                assert(map@[j].0@ == ast@[j].kind.spec_name());
            }
        }
        map.push((name, item));
        i = i + 1;
    }
    let idx = Index(map);
    assert(idx.wf()) by {
        assert forall|a: int, b: int| 0 <= a < b < idx.0@.len() implies #[trigger] idx.0@[a].0@
            != #[trigger] idx.0@[b].0@ by {
            assert(!repeats_earlier(ast@, b));
            assert(idx.0@[a].0@ == ast@[a].kind.spec_name());
        }
    }
    Ok(idx)
}

} // verus!
