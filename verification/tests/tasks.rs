use std::path::Path;

use nix_varlink_client::path::components;
use nix_varlink_client::path::join;
use nix_varlink_client::path::parent;
use nix_varlink_client::path::same_bytes;
use nix_varlink_client::path::same_components;
use nix_varlink_client::path::Component;
use nix_varlink_client::task::copy_step;
use nix_varlink_client::task::create_output_dirs;
use nix_varlink_client::task::ensure_safe_relative;
use nix_varlink_client::task::exit_code;
use nix_varlink_client::task::shell_args;
use nix_varlink_client::task::stage_output;
use nix_varlink_client::task::staging_root;
use nix_varlink_client::task::OutputFile;
use nix_varlink_client::task::TaskError;
use nix_varlink_client::task::SHELL;

const PATHS: [&str; 34] = [
    "", "/", "//", ".", "..", "./", "../", "/.", "/..", "a", "a/", "a//", "/a", "//a", "a/b", "a//b",
    "a/./b", "a/../b", "./a", ".//a", "././a", "./.", "./..", "a/.", "a/./", "a/..", ".a", "..a", "a.",
    "...", "/./a", "/a/b/c/", "\u{e9}/b", "a/b/./../c/.",
];

fn std_components(path: &str) -> Vec<Component> {
    Path::new(path)
        .components()
        .map(|c| match c {
            std::path::Component::RootDir => Component::RootDir,
            std::path::Component::CurDir => Component::CurDir,
            std::path::Component::ParentDir => Component::ParentDir,
            std::path::Component::Normal(name) => {
                Component::Normal(name.to_str().unwrap().as_bytes().to_vec())
            }
            std::path::Component::Prefix(_) => unreachable!(),
        })
        .collect()
}

fn output(name: Option<&str>, rel_path: Option<&str>, build_path: &str) -> OutputFile {
    OutputFile {
        build_path: build_path.as_bytes().to_vec(),
        rel_path: rel_path.map(|p| p.as_bytes().to_vec()),
        output_name: name.map(|n| n.to_string()),
    }
}

fn built(build_path: &str) -> OutputFile {
    output(None, None, build_path)
}

#[test]
fn components_are_those_of_the_system() {
    for path in PATHS {
        assert_eq!(components(path.as_bytes()), std_components(path), "{:?}", path);
    }
}

#[test]
fn parents_are_those_of_the_system() {
    for path in PATHS {
        let expected = Path::new(path).parent().map(|p| p.to_str().unwrap().as_bytes().to_vec());
        assert_eq!(parent(path.as_bytes()), expected, "{:?}", path);
    }
}

#[test]
fn joins_are_those_of_the_system() {
    for base in PATHS {
        for path in PATHS {
            let expected = Path::new(base).join(path).to_str().unwrap().as_bytes().to_vec();
            assert_eq!(join(base.as_bytes(), path.as_bytes()), expected, "{:?} {:?}", base, path);
        }
    }
}

#[test]
fn paths_that_go_the_same_steps() {
    let same = |a: &str, b: &str| {
        same_components(&components(a.as_bytes()), &components(b.as_bytes()))
    };
    for a in PATHS {
        for b in PATHS {
            assert_eq!(same(a, b), Path::new(a) == Path::new(b), "{:?} {:?}", a, b);
        }
    }
    assert!(same_bytes(&b"ab".to_vec(), &b"ab".to_vec()));
    assert!(!same_bytes(&b"ab".to_vec(), &b"ac".to_vec()));
    assert!(!same_bytes(&b"ab".to_vec(), &b"a".to_vec()));
}

#[test]
fn safe_relative_paths() {
    for path in ["", "a", "a/b", "./a", "a/./b", "a//b/", ".a", "..a", "a..", "..."] {
        assert!(ensure_safe_relative(path.as_bytes(), "out").is_ok(), "{}", path);
    }
    assert!(ensure_safe_relative(b"\xff/x", "out").is_ok());
}

#[test]
fn absolute_relative_paths() {
    for path in ["/", "/a", "//a/..", "/.."] {
        match ensure_safe_relative(path.as_bytes(), "out") {
            Err(e @ TaskError::AbsoluteRelPath { .. }) => {
                assert_eq!(e.message(), format!("output out has absolute rel_path: {}", path));
            }
            other => panic!("{:?}", other),
        }
    }
}

#[test]
fn escaping_relative_paths() {
    for path in ["..", "../a", "a/..", "a/../b", "./..", "a/b/../../.."] {
        match ensure_safe_relative(path.as_bytes(), "out") {
            Err(e @ TaskError::UnsafeRelPath { .. }) => {
                assert_eq!(
                    e.message(),
                    format!("output out has unsafe rel_path component in {}", path)
                );
            }
            other => panic!("{:?}", other),
        }
    }
}

#[test]
fn paths_that_are_not_text_are_shown_as_far_as_they_are() {
    let error = ensure_safe_relative(b"\xff/../\xc3\xa9", "out").unwrap_err();
    assert_eq!(
        error.message(),
        "output out has unsafe rel_path component in \u{fffd}/../\u{e9}"
    );
}

#[test]
fn staging_directory() {
    assert_eq!(staging_root(Some(b"/build"), b"/tmp"), b"/build/nix-ninja-task-outputs");
    assert_eq!(staging_root(None, b"/tmp/"), b"/tmp/nix-ninja-task-outputs");
}

#[test]
fn staged_output() {
    let file = output(Some("out"), Some("lib/libx.so"), "/build/lib/libx.so");
    let staged = stage_output(b"/s", &file).unwrap();
    assert_eq!(staged.name, "out");
    assert_eq!(staged.staging, b"/s/out");
    assert_eq!(staged.copy.parent, Some(b"/s/out/lib".to_vec()));
    assert_eq!(staged.copy.from, b"/build/lib/libx.so");
    assert_eq!(staged.copy.to, b"/s/out/lib/libx.so");
}

#[test]
fn staged_file_stays_in_its_directory() {
    for rel_path in ["a", "./a", "a//b/.", "", "."] {
        let file = output(Some("o"), Some(rel_path), "x");
        let staged = stage_output(b"/s", &file).unwrap();
        let below = components(&staged.copy.to);
        let above = components(&staged.staging);
        assert_eq!(below[..above.len()], above[..]);
        assert!(below[above.len()..].iter().all(|c| matches!(c, Component::Normal(_))));
    }
}

#[test]
fn outputs_that_are_not_staged() {
    let message = |file: OutputFile| stage_output(b"/s", &file).unwrap_err().message();
    assert_eq!(message(output(None, None, "b/x")), "output b/x has no output name");
    assert_eq!(message(output(None, Some("/"), "b/x")), "output b/x has no output name");
    assert_eq!(message(output(Some("out"), None, "b/x")), "output out has no rel_path");
    assert_eq!(
        message(output(Some("out"), Some("/x"), "b/x")),
        "output out has absolute rel_path: /x"
    );
    assert_eq!(
        message(output(Some("out"), Some("../x"), "b/x")),
        "output out has unsafe rel_path component in ../x"
    );
}

#[test]
fn output_directories_are_distinct_and_complete() {
    let outputs = vec![
        built("lib/a.so"),
        built("bin/x"),
        built("lib//b.so"),
        built("./lib/c.so"),
        built("top"),
        built("/"),
        built(""),
        built("bin/./y"),
    ];
    assert_eq!(
        create_output_dirs(&outputs),
        vec![b"lib".to_vec(), b"bin".to_vec(), b"./lib".to_vec(), b"".to_vec()]
    );
    assert!(create_output_dirs(&vec![]).is_empty());
}

#[test]
fn copying_one_file() {
    let step = copy_step(b"build/x", b"/nix/store/p/x".to_vec());
    assert_eq!(step.parent, Some(b"/nix/store/p".to_vec()));
    assert_eq!(step.from, b"build/x");
    assert_eq!(step.to, b"/nix/store/p/x");
    assert_eq!(copy_step(b"x", b"/".to_vec()).parent, None);
}

#[test]
fn running_a_command() {
    assert_eq!(SHELL, "/bin/sh");
    assert_eq!(shell_args("echo 'a b'"), ["-c", "echo 'a b'"]);
    assert_eq!(exit_code(Some(0)), 0);
    assert_eq!(exit_code(Some(-3)), -3);
    assert_eq!(exit_code(None), 1);
}
