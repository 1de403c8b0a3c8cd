use aozora_tools::discover::{resolve, Input, Resolved};

fn files_of(input: Input) -> Vec<String> {
    match input {
        Input::Files(resolved) => resolved.files,
        Input::Stdin => panic!("expected Input::Files, got Stdin"),
    }
}

#[test]
fn no_paths_resolve_to_stdin() {
    assert!(matches!(resolve(&[], Resolved::default()).unwrap(), Input::Stdin));
}

#[test]
fn lone_dash_resolves_to_stdin() {
    let paths = ["-".to_owned()];
    assert!(matches!(resolve(&paths, Resolved::default()).unwrap(), Input::Stdin));
}

#[test]
fn dash_mixed_with_a_path_is_an_error() {
    let paths = ["-".to_owned(), "a.afm".to_owned()];
    let err = resolve(&paths, Resolved::default()).expect_err("mixing stdin and paths must error");
    assert!(err.contains("cannot mix"), "{err}");
}

#[test]
fn missing_path_is_passed_through_verbatim() {
    let paths = ["/definitely/not/here.afm".to_owned()];
    let found = Resolved { files: paths.to_vec(), errors: Vec::new() };
    let files = files_of(resolve(&paths, found).unwrap());
    assert_eq!(files, vec!["/definitely/not/here.afm".to_owned()]);
}

#[test]
fn duplicate_path_arguments_are_deduplicated() {
    let f = "dir/a.afm".to_owned();
    let paths = [f.clone(), f.clone()];
    let found = Resolved { files: paths.to_vec(), errors: Vec::new() };
    let files = files_of(resolve(&paths, found).unwrap());
    assert_eq!(files, vec![f], "duplicate args must collapse to one");
}

#[test]
fn discovered_files_come_back_in_path_order_with_their_errors() {
    let paths = ["dir".to_owned()];
    let found = Resolved {
        files: vec!["dir/sub/d.aozora.txt".to_owned(), "dir/b.aozora".to_owned(), "dir/a.afm".to_owned(), "dir/a.b/c.afm".to_owned()],
        errors: vec!["walk error".to_owned()],
    };
    match resolve(&paths, found).unwrap() {
        Input::Files(resolved) => {
            assert_eq!(
                resolved.files,
                vec!["dir/a.afm".to_owned(), "dir/a.b/c.afm".to_owned(), "dir/b.aozora".to_owned(), "dir/sub/d.aozora.txt".to_owned()]
            );
            assert_eq!(resolved.errors, vec!["walk error".to_owned()]);
        }
        Input::Stdin => panic!("expected files"),
    }
}

#[test]
fn resolved_files_are_strictly_ascending() {
    let paths = ["dir".to_owned()];
    let found = Resolved {
        files: vec![
            "dir/b.afm".to_owned(),
            "dir//a.afm".to_owned(),
            "dir/a.afm".to_owned(),
            "dir/b.afm".to_owned(),
            "dir/a.afm/".to_owned(),
        ],
        errors: Vec::new(),
    };
    let files = files_of(resolve(&paths, found).unwrap());
    assert_eq!(files.len(), 2);
    for pair in files.windows(2) {
        assert!(std::path::Path::new(&pair[0]) < std::path::Path::new(&pair[1]));
    }
    assert_eq!(std::path::Path::new(&files[1]), std::path::Path::new("dir/b.afm"));
}
