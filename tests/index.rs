use didactic_eureka::ast::{Item as ItemAst, ItemKind, Ty as TyAst};
use didactic_eureka::index::{index, Item, Ty};

fn function(name: &str, params: Vec<(&str, TyAst)>, return_ty: TyAst, start: usize, end: usize) -> ItemAst {
    ItemAst {
        kind: ItemKind::Function {
            name: name.to_string(),
            params: params.into_iter().map(|(n, t)| (n.to_string(), t)).collect(),
            return_ty,
        },
        range: start..end,
    }
}

fn structure(name: &str, fields: Vec<(&str, TyAst)>, start: usize, end: usize) -> ItemAst {
    ItemAst {
        kind: ItemKind::Struct {
            name: name.to_string(),
            fields: fields.into_iter().map(|(n, t)| (n.to_string(), t)).collect(),
        },
        range: start..end,
    }
}

fn named(n: &str) -> TyAst {
    TyAst::Named(n.to_string())
}

#[test]
fn index_resolves_every_declaration() {
    let items = vec![
        structure("point", vec![("x", named("int")), ("next", TyAst::Pointer(Box::new(named("point"))))], 0, 30),
        function("main", vec![("p", TyAst::Pointer(Box::new(named("point"))))], TyAst::Void, 31, 60),
    ];
    let idx = index(&items).expect("no duplicates");
    assert_eq!(idx.0.len(), 2);
    match idx.get("point") {
        Some(Item::Struct { fields }) => {
            assert_eq!(fields.len(), 2);
            assert_eq!(fields[0].0, "x");
            assert!(matches!(&fields[0].1, Ty::Named(n) if n == "int"));
            assert!(matches!(&fields[1].1, Ty::Pointer(inner) if matches!(&**inner, Ty::Named(n) if n == "point")));
        }
        _ => panic!("point must be a struct"),
    }
    match idx.get("main") {
        Some(Item::Function { params, return_ty }) => {
            assert_eq!(params.len(), 1);
            assert_eq!(params[0].0, "p");
            assert!(matches!(return_ty, Ty::Void));
        }
        _ => panic!("main must be a function"),
    }
    assert!(idx.get("mai").is_none());
    assert!(idx.get("").is_none());
}

#[test]
fn index_of_nothing_is_empty() {
    let idx = index(&[]).unwrap();
    assert!(idx.0.is_empty());
    assert!(idx.get("main").is_none());
}

#[test]
fn duplicate_name_is_reported_at_second_declaration() {
    let items = vec![
        function("f", vec![], TyAst::Void, 0, 10),
        structure("s", vec![], 11, 20),
        structure("f", vec![], 21, 35),
        function("s", vec![], TyAst::Void, 36, 50),
    ];
    match index(&items) {
        Err(e) => {
            assert_eq!(e.message, "`f` already defined");
            assert_eq!(e.range, 21..35);
        }
        Ok(_) => panic!("duplicate must be rejected"),
    }
}
