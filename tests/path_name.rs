use blastf::name::Name;
use blastf::path::{ModulePath, Path};

fn path_of(segs: &[&str]) -> Path {
    let mut p = Path::new();
    for s in segs {
        p.push(s.to_string());
    }
    p
}

#[test]
fn push_then_last_is_pushed() {
    let mut p = path_of(&["root", "foo"]);
    p.push("Bar".to_string());
    assert_eq!(p.get_last(), "Bar");
    assert_eq!(p.get_root(), "root");
}

#[test]
fn pop_root_exposes_second_segment() {
    let mut p = path_of(&["root", "foo", "bar"]);
    p.pop_root();
    assert_eq!(p.get_root(), "foo");
    assert_eq!(p.to_string(), "foo::bar");
}

#[test]
fn extend_appends_in_order() {
    let mut p = path_of(&["root", "foo"]);
    let q = path_of(&["bar", "Baz"]);
    p.extend(q);
    assert_eq!(p.get_last(), "Baz");
    assert_eq!(p.to_string(), "root::foo::bar::Baz");
}

#[test]
fn extend_by_empty_keeps_path() {
    let mut p = path_of(&["root"]);
    p.extend(Path::new());
    assert_eq!(p.to_string(), "root");
    assert_eq!(p.get_last(), "root");
}

#[test]
fn display_of_empty_and_single() {
    assert_eq!(Path::new().to_string(), "");
    assert_eq!(path_of(&["root"]).to_string(), "root");
}

#[test]
fn module_path_is_a_path() {
    let mut m: ModulePath = ModulePath::new();
    m.push("root".to_string());
    m.push("m".to_string());
    assert_eq!(m.get_root(), "root");
    assert_eq!(m.get_last(), "m");
}

#[test]
fn name_display_format() {
    let n = Name::new("Bar".to_string(), path_of(&["root", "foo"]), 42);
    assert_eq!(n.to_string(), "root::foo::Bar_42");
    assert_eq!(n.ident(), "Bar");
    assert_eq!(n.id(), 42);
    assert_eq!(n.path().to_string(), "root::foo");
}

#[test]
fn name_display_with_zero_and_large_ids() {
    let n = Name::new("x".to_string(), path_of(&["root"]), 0);
    assert_eq!(n.to_string(), "root::x_0");
    let m = Name::new("y".to_string(), path_of(&["a", "b"]), 1907);
    assert_eq!(m.to_string(), "a::b::y_1907");
}

#[test]
fn names_with_different_ids_differ() {
    let a = Name::new("x".to_string(), path_of(&["root"]), 1);
    let b = Name::new("x".to_string(), path_of(&["root"]), 2);
    assert!(!a.same_definition(&b));
    let c = Name::new("other".to_string(), path_of(&["elsewhere"]), 1);
    assert!(a.same_definition(&c));
    assert!(a != b);
    assert!(a == c);
}
