use btdt::error::ErrorKind;
use btdt::storage::in_memory::path_iter::{
    component_names, is_component_name, PathComponent, PathIterExt,
};

#[test]
fn test_path_components_requires_leading_slash() {
    assert!("".path_components().is_err());
    assert!("foo".path_components().is_err());
    assert!("foo/bar".path_components().is_err());
}

#[test]
fn test_path_components_marks_last_component() {
    let components: Vec<_> = "/foo/bar/baz".path_components().unwrap().collect();
    assert_eq!(
        components,
        vec![
            PathComponent {
                name: "foo".to_string(),
                is_last: false
            },
            PathComponent {
                name: "bar".to_string(),
                is_last: false
            },
            PathComponent {
                name: "baz".to_string(),
                is_last: true
            },
        ]
    );
}

#[test]
fn test_ignores_empty_components() {
    let components: Vec<_> = "/foo///bar/".path_components().unwrap().collect();
    assert_eq!(
        components,
        vec![
            PathComponent {
                name: "foo".to_string(),
                is_last: false
            },
            PathComponent {
                name: "bar".to_string(),
                is_last: true
            },
        ]
    );
}

#[test]
fn path_components_are_handed_out_one_by_one() {
    let mut iter = "/a/b".path_components().unwrap();
    assert_eq!(
        iter.next(),
        Some(PathComponent {
            name: "a".to_string(),
            is_last: false
        })
    );
    assert_eq!(
        iter.next(),
        Some(PathComponent {
            name: "b".to_string(),
            is_last: true
        })
    );
    assert_eq!(iter.next(), None);
    assert_eq!(iter.next(), None);
}

#[test]
fn root_path_has_no_components() {
    assert_eq!("/".path_components().unwrap().collect(), vec![]);
    assert_eq!("///".path_components().unwrap().collect(), vec![]);
    assert_eq!(component_names("/").unwrap(), Vec::<String>::new());
}

#[test]
fn relative_path_is_invalid_input() {
    assert_eq!(
        component_names("a/b").unwrap_err().kind,
        ErrorKind::InvalidInput
    );
    assert_eq!(
        "".path_components().unwrap_err().kind(),
        ErrorKind::InvalidInput
    );
}

#[test]
fn component_names_keep_unicode() {
    assert_eq!(
        component_names("/caf\u{e9}/\u{1f980}//x").unwrap(),
        vec![
            "caf\u{e9}".to_string(),
            "\u{1f980}".to_string(),
            "x".to_string()
        ]
    );
}

#[test]
fn component_name_is_not_empty_and_has_no_slash() {
    assert!(is_component_name("a"));
    assert!(is_component_name(".."));
    assert!(!is_component_name(""));
    assert!(!is_component_name("a/b"));
    assert!(!is_component_name("/"));
}
