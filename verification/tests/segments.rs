use abbreviate_cwd::home::{is_under_home, substitute_home};
use abbreviate_cwd::segment::{abbreviate_segment, is_root_marker};
use abbreviate_cwd::split::split_segments;

fn texts(segments: &[&str]) -> Vec<String> {
    segments.iter().map(|segment| segment.to_string()).collect()
}

#[test]
fn short_form_is_the_first_character() {
    assert_eq!(abbreviate_segment("projects"), "p");
    assert_eq!(abbreviate_segment("var"), "v");
    assert_eq!(abbreviate_segment("~"), "~");
    assert_eq!(abbreviate_segment("été"), "é");
}

#[test]
fn short_form_of_hidden_entry_has_two_characters() {
    assert_eq!(abbreviate_segment(".config"), ".c");
    assert_eq!(abbreviate_segment(".c"), ".c");
    assert_eq!(abbreviate_segment(".."), "..");
    assert_eq!(abbreviate_segment(".été"), ".é");
}

#[test]
fn short_form_of_single_character_is_itself() {
    assert_eq!(abbreviate_segment("a"), "a");
    assert_eq!(abbreviate_segment("."), ".");
    assert_eq!(abbreviate_segment("/"), "/");
    assert_eq!(abbreviate_segment("é"), "é");
}

#[test]
fn short_form_of_nothing_is_nothing() {
    assert_eq!(abbreviate_segment(""), "");
}

#[test]
fn dot_inside_a_name_does_not_lengthen_the_short_form() {
    assert_eq!(abbreviate_segment("a.b"), "a");
    assert_eq!(abbreviate_segment("node.js"), "n");
}

#[test]
fn root_marker_is_one_separator() {
    assert!(is_root_marker("/"));
    assert!(!is_root_marker(""));
    assert!(!is_root_marker("//"));
    assert!(!is_root_marker("a"));
    assert!(!is_root_marker("/a"));
    assert!(!is_root_marker("é"));
}

#[test]
fn absolute_path_starts_with_root_segment() {
    assert_eq!(split_segments("/"), texts(&["/"]));
    assert_eq!(split_segments("/usr"), texts(&["/", "usr"]));
    assert_eq!(split_segments("/var/log/nginx"), texts(&["/", "var", "log", "nginx"]));
    assert_eq!(split_segments("/home/alice/.config"), texts(&["/", "home", "alice", ".config"]));
}

#[test]
fn relative_path_has_named_segments_only() {
    assert_eq!(split_segments("usr"), texts(&["usr"]));
    assert_eq!(split_segments("var/log"), texts(&["var", "log"]));
    assert_eq!(split_segments("~/projects"), texts(&["~", "projects"]));
}

#[test]
fn empty_path_has_no_segments() {
    assert_eq!(split_segments(""), Vec::<String>::new());
}

#[test]
fn empty_pieces_are_left_out() {
    assert_eq!(split_segments("//"), texts(&["/"]));
    assert_eq!(split_segments("///usr//lib///"), texts(&["/", "usr", "lib"]));
    assert_eq!(split_segments("usr/"), texts(&["usr"]));
    assert_eq!(split_segments("a//b"), texts(&["a", "b"]));
}

#[test]
fn single_dots_are_left_out_except_in_front() {
    assert_eq!(split_segments("."), texts(&["."]));
    assert_eq!(split_segments("./"), texts(&["."]));
    assert_eq!(split_segments("./a"), texts(&[".", "a"]));
    assert_eq!(split_segments("././a"), texts(&[".", "a"]));
    assert_eq!(split_segments("a/./b"), texts(&["a", "b"]));
    assert_eq!(split_segments("a/."), texts(&["a"]));
    assert_eq!(split_segments("/."), texts(&["/"]));
    assert_eq!(split_segments("/./a/./."), texts(&["/", "a"]));
}

#[test]
fn double_dots_and_dotted_names_are_segments() {
    assert_eq!(split_segments(".."), texts(&[".."]));
    assert_eq!(split_segments("../a"), texts(&["..", "a"]));
    assert_eq!(split_segments("/a/../b"), texts(&["/", "a", "..", "b"]));
    assert_eq!(split_segments(".a"), texts(&[".a"]));
    assert_eq!(split_segments(".a/.b"), texts(&[".a", ".b"]));
    assert_eq!(split_segments("/..."), texts(&["/", "..."]));
}

#[test]
fn segments_agree_with_the_standard_library() {
    let paths = [
        "", "/", "//", "/usr", "/usr/", "usr", "./usr", "../usr", ".", "..", "/.", "/..",
        "a/./b", "a//b", "/a/b/c", "./.", ".//.", ".a", "a.", "/home/alice/.config/nvim",
        "/données/été", "~/x", "a/b/./", "/./././x",
    ];
    for path in paths {
        let expected: Vec<String> = std::path::Path::new(path)
            .iter()
            .map(|segment| segment.to_str().unwrap().to_string())
            .collect();
        assert_eq!(split_segments(path), expected, "segments of {:?}", path);
    }
}

#[test]
fn path_is_under_home_by_whole_segments() {
    let home = texts(&["/", "home", "alice"]);
    assert!(is_under_home(&texts(&["/", "home", "alice"]), &home));
    assert!(is_under_home(&texts(&["/", "home", "alice", "projects"]), &home));
    assert!(!is_under_home(&texts(&["/", "home", "alice2"]), &home));
    assert!(!is_under_home(&texts(&["/", "home"]), &home));
    assert!(!is_under_home(&texts(&["/", "home", "bob", "alice"]), &home));
    assert!(!is_under_home(&texts(&["home", "alice"]), &home));
    assert!(!is_under_home(&texts(&[]), &home));
}

#[test]
fn nothing_is_under_a_home_without_segments() {
    let home = texts(&[]);
    assert!(!is_under_home(&texts(&["/", "home", "alice"]), &home));
    assert!(!is_under_home(&texts(&["/"]), &home));
    assert!(!is_under_home(&texts(&[]), &home));
}

#[test]
fn home_prefix_becomes_the_marker() {
    let home = texts(&["/", "home", "alice"]);
    assert_eq!(
        substitute_home(texts(&["/", "home", "alice", "projects", "demo"]), &home),
        texts(&["~", "projects", "demo"])
    );
    assert_eq!(substitute_home(texts(&["/", "home", "alice"]), &home), texts(&["~"]));
    assert_eq!(
        substitute_home(texts(&["/", "home", "alice", "home", "alice"]), &home),
        texts(&["~", "home", "alice"])
    );
}

#[test]
fn path_outside_home_is_left_alone() {
    let home = texts(&["/", "home", "alice"]);
    assert_eq!(
        substitute_home(texts(&["/", "var", "log"]), &home),
        texts(&["/", "var", "log"])
    );
    assert_eq!(
        substitute_home(texts(&["/", "home", "alice2", "x"]), &home),
        texts(&["/", "home", "alice2", "x"])
    );
    assert_eq!(substitute_home(texts(&["/", "home"]), &home), texts(&["/", "home"]));
    assert_eq!(substitute_home(texts(&["/", "var"]), &texts(&[])), texts(&["/", "var"]));
    assert_eq!(substitute_home(texts(&[]), &home), texts(&[]));
}

#[test]
fn substitution_agrees_with_prefix_stripping_of_the_standard_library() {
    let homes = ["/home/alice", "/home/alice/", "/", "/home", "home/alice", ".", "/a/./b", "/x"];
    let paths = [
        "/",
        "/home",
        "/home/alice",
        "/home/alice/",
        "/home/alice/projects/demo",
        "/home/alice2/projects",
        "/home//alice/./.config/nvim",
        "/var/log/nginx",
        "/a/b/c",
        "/x",
        "/x/y",
        "home/alice/work",
        "./work",
        ".",
        "work",
    ];
    for home in homes {
        for path in paths {
            let shown = match std::path::Path::new(path).strip_prefix(home) {
                Ok(rest) => std::path::Path::new("~").join(rest),
                Err(_) => std::path::PathBuf::from(path),
            };
            let expected: Vec<String> = shown
                .iter()
                .map(|segment| segment.to_str().unwrap().to_string())
                .collect();
            assert_eq!(
                substitute_home(split_segments(path), &split_segments(home)),
                expected,
                "{:?} under {:?}",
                path,
                home
            );
        }
    }
}
