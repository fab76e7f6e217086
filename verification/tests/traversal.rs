use require_graph::registry::Registry;
use require_graph::syntax::{
    Argument, Binding, Callee, Declarator, Initializer, Statement, SyntaxTree,
};
use require_graph::traversal::{Event, Reply, Request, Traversal, TraverseError};

/// A tree of files held in memory: canonical path and text of each file.
struct Files {
    files: Vec<(String, String)>,
}

impl Files {
    fn new(files: &[(&str, &str)]) -> Files {
        Files { files: files.iter().map(|(p, s)| (p.to_string(), s.to_string())).collect() }
    }

    /// Resolves `.` and `..` against the working directory `/work`.
    fn canonicalize(&self, path: &str) -> Option<String> {
        let absolute = if path.starts_with('/') {
            path.to_string()
        } else {
            format!("/work/{}", path)
        };
        let mut parts: Vec<&str> = Vec::new();
        for part in absolute.split('/') {
            match part {
                "" | "." => {}
                ".." => {
                    parts.pop();
                }
                other => parts.push(other),
            }
        }
        let canonical = format!("/{}", parts.join("/"));
        if self.files.iter().any(|(p, _)| *p == canonical) {
            Some(canonical)
        } else {
            None
        }
    }

    fn read(&self, canonical: &str) -> String {
        self.files.iter().find(|(p, _)| p == canonical).unwrap().1.clone()
    }

    fn perform(&self, request: &Request) -> Option<Reply> {
        match request {
            Request::Load { path } => Some(match self.canonicalize(path) {
                Some(canonical) => {
                    let source = self.read(&canonical);
                    Reply::Loaded { canonical, source }
                }
                None => Reply::Failed,
            }),
            Request::Resolve { path } => Some(match self.canonicalize(path) {
                Some(canonical) => Reply::Resolved { canonical },
                None => Reply::Failed,
            }),
            Request::Finished | Request::Failed(_) => None,
        }
    }

    fn walk_into(&self, entry: &str, registry: Registry) -> Traversal {
        let mut traversal = Traversal::new(entry.to_string(), registry);
        let mut steps = 0;
        while let Some(reply) = self.perform(traversal.request()) {
            traversal.step(reply);
            steps += 1;
            assert!(steps < 10_000, "the walk does not end");
        }
        traversal
    }

    fn walk(&self, entry: &str) -> Traversal {
        self.walk_into(entry, Registry::new())
    }
}

fn paths(registry: &Registry) -> Vec<String> {
    (0..registry.len()).map(|id| registry.get(id).unwrap().path_name_as_str()).collect()
}

fn ids(registry: &Registry) -> Vec<usize> {
    (0..registry.len()).map(|id| registry.get(id).unwrap().id).collect()
}

fn require_tree(specifiers: &[&str]) -> SyntaxTree {
    SyntaxTree {
        body: specifiers
            .iter()
            .map(|s| {
                Statement::Declaration(vec![Declarator {
                    binding: Binding::Identifier,
                    init: Initializer::Call {
                        callee: Callee::Identifier("require".to_string()),
                        arguments: vec![Argument::StringLiteral(s.to_string())],
                    },
                }])
            })
            .collect(),
    }
}

#[test]
fn main_01() {
    let files = Files::new(&[
        ("/work/samples/entry.js", "const a = require(\"./a\");\nconsole.log(a);\n"),
        ("/work/samples/a.js", "module.exports = 1;\n"),
    ]);
    let traversal = files.walk("./samples/entry.js");
    let module_map = traversal.finish().expect("the walk finishes");
    assert_eq!(2, module_map.len());
    for index in 0..module_map.len() {
        assert_eq!(index, module_map.get(index).unwrap().id);
    }
}

#[test]
fn end_to_end_ids_follow_discovery_order() {
    let files = Files::new(&[
        ("/work/entry.js", "const a = require(\"./a\")"),
        ("/work/a.js", "const b = require(\"./b\")"),
        ("/work/b.js", "module.exports = {}"),
    ]);
    let registry = files.walk("entry.js").finish().unwrap();
    assert_eq!(paths(&registry), vec!["/work/entry.js", "/work/a.js", "/work/b.js"]);
    assert_eq!(ids(&registry), vec![0, 1, 2]);
}

#[test]
fn a_cycle_ends_with_both_modules() {
    let files = Files::new(&[
        ("/work/A.js", "const b = require(\"./B\")"),
        ("/work/B.js", "const a = require(\"./A\")"),
    ]);
    let registry = files.walk("./A.js").finish().unwrap();
    assert_eq!(paths(&registry), vec!["/work/A.js", "/work/B.js"]);
    assert_eq!(ids(&registry), vec![0, 1]);
}

#[test]
fn a_module_that_requires_itself_is_visited_once() {
    let files = Files::new(&[("/work/me.js", "const me = require(\"./me\")")]);
    let registry = files.walk("me.js").finish().unwrap();
    assert_eq!(paths(&registry), vec!["/work/me.js"]);
}

#[test]
fn pre_order_not_completion_order() {
    let files = Files::new(&[
        ("/work/entry.js", "const a = require('./a'), d = require('./d');"),
        ("/work/a.js", "const b = require('./b'); const c = require('./c');"),
        ("/work/b.js", ""),
        ("/work/c.js", ""),
        ("/work/d.js", "const b = require('./b');"),
    ]);
    let registry = files.walk("/work/entry.js").finish().unwrap();
    assert_eq!(
        paths(&registry),
        vec!["/work/entry.js", "/work/a.js", "/work/b.js", "/work/c.js", "/work/d.js"]
    );
    assert_eq!(ids(&registry), vec![0, 1, 2, 3, 4]);
}

#[test]
fn one_file_under_several_spellings_is_one_module() {
    let files = Files::new(&[
        (
            "/work/entry.js",
            "const a = require('./a'); const b = require('./a.js'); const c = require('./lib/../a');",
        ),
        ("/work/a.js", "const again = require('./a.js')"),
        ("/work/lib/keep.js", ""),
    ]);
    let registry = files.walk("entry.js").finish().unwrap();
    assert_eq!(paths(&registry), vec!["/work/entry.js", "/work/a.js"]);
}

#[test]
fn a_diamond_is_visited_once_per_file() {
    let files = Files::new(&[
        ("/work/top.js", "const l = require('./left'); const r = require('./right');"),
        ("/work/left.js", "const b = require('./bottom');"),
        ("/work/right.js", "const b = require('./bottom');"),
        ("/work/bottom.js", ""),
    ]);
    let registry = files.walk("top.js").finish().unwrap();
    assert_eq!(
        paths(&registry),
        vec!["/work/top.js", "/work/left.js", "/work/bottom.js", "/work/right.js"]
    );
}

#[test]
fn references_resolve_against_the_directory_of_the_referring_file() {
    let files = Files::new(&[
        ("/work/entry.js", "const x = require('./lib/x')"),
        ("/work/lib/x.js", "const y = require('./y')"),
        ("/work/lib/y.js", ""),
        ("/work/y.js", ""),
    ]);
    let registry = files.walk("entry.js").finish().unwrap();
    assert_eq!(paths(&registry), vec!["/work/entry.js", "/work/lib/x.js", "/work/lib/y.js"]);
}

#[test]
fn a_package_specifier_is_not_followed() {
    let files = Files::new(&[
        ("/work/entry.js", "const _ = require('lodash'); const a = require('./a');"),
        ("/work/lodash.js", "const never = require('./never')"),
        ("/work/lodash", ""),
        ("/work/a.js", ""),
    ]);
    let traversal = files.walk("entry.js");
    assert_eq!(*traversal.request(), Request::Finished);
    let registry = traversal.finish().unwrap();
    assert_eq!(paths(&registry), vec!["/work/entry.js", "/work/a.js"]);
}

#[test]
fn a_package_specifier_asks_for_nothing() {
    let mut traversal = Traversal::new("entry.js".to_string(), Registry::new());
    traversal.advance(Event::Parsed {
        canonical: "/work/entry.js".to_string(),
        tree: require_tree(&["lodash", "fs", "@scope/pkg"]),
    });
    assert_eq!(*traversal.request(), Request::Finished);
    assert_eq!(traversal.registry().len(), 1);
}

#[test]
fn malformed_shapes_give_no_edge() {
    let files = Files::new(&[
        (
            "/work/entry.js",
            "const foo = './x';\nconst x = require(foo);\nrequire(\"./x\");\nconst {a} = require(\"./x\");\n",
        ),
        ("/work/x.js", ""),
    ]);
    let registry = files.walk("entry.js").finish().unwrap();
    assert_eq!(paths(&registry), vec!["/work/entry.js"]);
}

#[test]
fn repeated_runs_agree() {
    let files = Files::new(&[
        ("/work/entry.js", "const a = require('./a'), b = require('./b');"),
        ("/work/a.js", "const b = require('./b');"),
        ("/work/b.js", "const a = require('./a');"),
    ]);
    let first = files.walk("entry.js").finish().unwrap();
    let second = files.walk("entry.js").finish().unwrap();
    assert_eq!(paths(&first), paths(&second));
    assert_eq!(ids(&first), ids(&second));
    assert_eq!(paths(&first), vec!["/work/entry.js", "/work/a.js", "/work/b.js"]);
}

#[test]
fn the_first_request_loads_the_entry() {
    let traversal = Traversal::new("./samples/entry.js".to_string(), Registry::new());
    assert_eq!(*traversal.request(), Request::Load { path: "./samples/entry.js".to_string() });
    assert!(traversal.finish().is_none());
}

#[test]
fn requests_follow_the_references_one_by_one() {
    let mut traversal = Traversal::new("./samples/entry.js".to_string(), Registry::new());
    traversal.advance(Event::Parsed {
        canonical: "/work/samples/entry.js".to_string(),
        tree: require_tree(&["./a", "lodash", "../b.js"]),
    });
    assert_eq!(*traversal.request(), Request::Resolve { path: "./samples/a.js".to_string() });
    traversal.advance(Event::Resolved { canonical: "/work/samples/a.js".to_string() });
    assert_eq!(*traversal.request(), Request::Load { path: "/work/samples/a.js".to_string() });
    traversal.advance(Event::Parsed {
        canonical: "/work/samples/a.js".to_string(),
        tree: require_tree(&[]),
    });
    assert_eq!(*traversal.request(), Request::Resolve { path: "./samples/./b.js".to_string() });
    traversal.advance(Event::Resolved { canonical: "/work/samples/entry.js".to_string() });
    assert_eq!(*traversal.request(), Request::Finished);
    let registry = traversal.finish().unwrap();
    assert_eq!(paths(&registry), vec!["/work/samples/entry.js", "/work/samples/a.js"]);
}

#[test]
fn an_entry_already_known_adds_nothing() {
    let files = Files::new(&[
        ("/work/entry.js", "const a = require('./a')"),
        ("/work/a.js", ""),
    ]);
    let first = files.walk("entry.js").finish().unwrap();
    let again = files.walk_into("./entry.js", first).finish().unwrap();
    assert_eq!(paths(&again), vec!["/work/entry.js", "/work/a.js"]);
}

#[test]
fn a_second_entry_continues_the_numbering() {
    let files = Files::new(&[
        ("/work/one.js", "const s = require('./shared')"),
        ("/work/two.js", "const s = require('./shared')"),
        ("/work/shared.js", ""),
    ]);
    let first = files.walk("one.js").finish().unwrap();
    let both = files.walk_into("two.js", first).finish().unwrap();
    assert_eq!(paths(&both), vec!["/work/one.js", "/work/shared.js", "/work/two.js"]);
    assert_eq!(ids(&both), vec![0, 1, 2]);
}

#[test]
fn a_missing_entry_is_unreadable() {
    let files = Files::new(&[]);
    let traversal = files.walk("nowhere.js");
    assert_eq!(
        *traversal.request(),
        Request::Failed(TraverseError::Unreadable { path: "nowhere.js".to_string() })
    );
    assert!(traversal.finish().is_none());
}

#[test]
fn a_reference_to_a_missing_file_is_a_resolution_error() {
    let files = Files::new(&[
        ("/work/entry.js", "const a = require('./a'); const gone = require('./gone');"),
        ("/work/a.js", ""),
    ]);
    let traversal = files.walk("entry.js");
    assert_eq!(
        *traversal.request(),
        Request::Failed(TraverseError::Resolution { path: "gone.js".to_string() })
    );
    assert!(traversal.finish().is_none());
}

#[test]
fn a_directory_specifier_is_a_resolution_error() {
    let files = Files::new(&[
        ("/work/entry.js", "const lib = require('./lib');"),
        ("/work/lib/index.js", ""),
    ]);
    let traversal = files.walk("/work/entry.js");
    assert_eq!(
        *traversal.request(),
        Request::Failed(TraverseError::Resolution { path: "/work/lib.js".to_string() })
    );
}

#[test]
fn a_syntax_error_is_a_parse_error() {
    let files = Files::new(&[
        ("/work/entry.js", "const a = require('./a');"),
        ("/work/a.js", "const = ;"),
    ]);
    let traversal = files.walk("entry.js");
    match traversal.request() {
        Request::Failed(TraverseError::Parse { path, message }) => {
            assert_eq!(path, "/work/a.js");
            assert!(!message.is_empty());
        }
        other => panic!("expected a parse error, got {:?}", other),
    }
    assert!(traversal.finish().is_none());
}

#[test]
fn an_event_that_answers_nothing_changes_nothing() {
    let mut traversal = Traversal::new("entry.js".to_string(), Registry::new());
    traversal.advance(Event::Resolved { canonical: "/work/entry.js".to_string() });
    assert_eq!(*traversal.request(), Request::Load { path: "entry.js".to_string() });
    traversal.advance(Event::Parsed {
        canonical: "/work/entry.js".to_string(),
        tree: require_tree(&["./a"]),
    });
    assert_eq!(*traversal.request(), Request::Resolve { path: "a.js".to_string() });
    traversal.advance(Event::Parsed {
        canonical: "/work/a.js".to_string(),
        tree: require_tree(&[]),
    });
    traversal.step(Reply::Loaded { canonical: "/work/a.js".to_string(), source: String::new() });
    traversal.advance(Event::Unparsable { message: "no".to_string() });
    assert_eq!(*traversal.request(), Request::Resolve { path: "a.js".to_string() });
    assert_eq!(traversal.registry().len(), 1);
    traversal.advance(Event::Missing);
    assert_eq!(
        *traversal.request(),
        Request::Failed(TraverseError::Resolution { path: "a.js".to_string() })
    );
    traversal.advance(Event::Resolved { canonical: "/work/a.js".to_string() });
    traversal.step(Reply::Failed);
    assert_eq!(
        *traversal.request(),
        Request::Failed(TraverseError::Resolution { path: "a.js".to_string() })
    );
}

#[test]
fn the_stored_tree_is_the_parsed_one() {
    let files = Files::new(&[("/work/entry.js", "const fs = require('fs');")]);
    let registry = files.walk("entry.js").finish().unwrap();
    let entry = registry.get(0).unwrap();
    assert_eq!(entry.ast, Some(require_tree(&["fs"])));
}
