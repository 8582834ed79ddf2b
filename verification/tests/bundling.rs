use moon_bundler::require_replacer::{BundleError, ErrorKind, RequireReplacer};
use moon_bundler::source::Fault;
use moon_bundler::visitor::{ShapeFault, Visitor};

/// Runs the replacer against files held in memory, giving it each file it
/// asks for until it has a bundle or an error that no further file mends.
/// Each file is given as its path, its canonical path and its text.
fn bundle_linked(
    files: &[(&str, &str, &str)],
    root: &str,
    use_root: bool,
    entry: &str,
) -> Result<String, BundleError> {
    let mut replacer = RequireReplacer::new(root, Visitor, use_root);
    loop {
        match replacer.replace_requires(entry) {
            Ok(text) => return Ok(String::from_utf8(text).unwrap()),
            Err(error) => {
                if error.kind != ErrorKind::Absent {
                    return Err(error);
                }
                match files.iter().find(|(path, _, _)| *path == error.path) {
                    Some((path, canonical, text)) => replacer.add_source(path, canonical, text),
                    None => replacer.add_unreadable(&error.path),
                }
            }
        }
    }
}

/// The same for files whose path is their canonical path.
fn bundle(
    files: &[(&str, &str)],
    root: &str,
    use_root: bool,
    entry: &str,
) -> Result<String, BundleError> {
    let linked: Vec<(&str, &str, &str)> =
        files.iter().map(|(path, text)| (*path, *path, *text)).collect();
    bundle_linked(&linked, root, use_root, entry)
}

#[test]
fn file_without_loads_passes_through_unchanged() {
    let text = "local x = 1\nprint(x) -- nothing to load\n";
    let out = bundle(&[("proj/main.lua", text)], "proj", false, "proj/main.lua").unwrap();
    assert_eq!(out, text);
}

#[test]
fn empty_file_passes_through_unchanged() {
    let out = bundle(&[("proj/main.lua", "")], "proj", false, "proj/main.lua").unwrap();
    assert_eq!(out, "");
}

#[test]
fn assigned_load_is_wrapped_and_keeps_the_return() {
    let files = [
        ("proj/main.lua", "local x = require(\"m.lua\")\nprint(x)\n"),
        ("proj/m.lua", "return 42"),
    ];
    let out = bundle(&files, "proj", false, "proj/main.lua").unwrap();
    assert_eq!(out, "local x = (function() return 42 end)()\nprint(x)\n");
}

#[test]
fn plain_assignment_load_is_wrapped() {
    let files = [("proj/main.lua", "x = require(\"m.lua\")\n"), ("proj/m.lua", "return 42")];
    let out = bundle(&files, "proj", false, "proj/main.lua").unwrap();
    assert_eq!(out, "x = (function() return 42 end)()\n");
}

#[test]
fn statement_load_is_spliced_in_bare() {
    let files = [
        ("proj/main.lua", "require(\"m.lua\")\nprint(\"done\")\n"),
        ("proj/m.lua", "print(\"side effect\")"),
    ];
    let out = bundle(&files, "proj", false, "proj/main.lua").unwrap();
    assert_eq!(out, "print(\"side effect\")\nprint(\"done\")\n");
}

#[test]
fn quoting_styles_give_the_same_bundle() {
    let module = ("proj/m.lua", "return 42");
    let double = bundle(
        &[("proj/main.lua", "local a = require(\"m.lua\")"), module],
        "proj",
        false,
        "proj/main.lua",
    )
    .unwrap();
    let single = bundle(
        &[("proj/main.lua", "local a = require('m.lua')"), module],
        "proj",
        false,
        "proj/main.lua",
    )
    .unwrap();
    let brackets = bundle(
        &[("proj/main.lua", "local a = require([[m.lua]])"), module],
        "proj",
        false,
        "proj/main.lua",
    )
    .unwrap();
    assert_eq!(double, "local a = (function() return 42 end)()");
    assert_eq!(single, double);
    assert_eq!(brackets, double);
}

#[test]
fn load_inside_a_conditional_is_left_untouched() {
    let text = "if cond then\n  local m = require(\"m.lua\")\nend\n";
    let out = bundle(&[("proj/main.lua", text)], "proj", false, "proj/main.lua").unwrap();
    assert_eq!(out, text);
}

#[test]
fn load_inside_a_function_body_is_left_untouched() {
    let text = "local function f()\n  return require(\"m.lua\")\nend\n";
    let out = bundle(&[("proj/main.lua", text)], "proj", false, "proj/main.lua").unwrap();
    assert_eq!(out, text);
}

#[test]
fn load_nested_in_a_larger_expression_is_left_untouched() {
    let text = "local t = { require(\"m.lua\") }\nlocal n = 1 + require(\"m.lua\")\n";
    let out = bundle(&[("proj/main.lua", text)], "proj", false, "proj/main.lua").unwrap();
    assert_eq!(out, text);
}

#[test]
fn two_loads_are_replaced_in_source_order() {
    let a = ("proj/a.lua", "print(\"a\")");
    let b = ("proj/b.lua", "print(\"b\")");
    let forward = bundle(
        &[("proj/main.lua", "require(\"a.lua\")\nrequire(\"b.lua\")\n"), a, b],
        "proj",
        false,
        "proj/main.lua",
    )
    .unwrap();
    assert_eq!(forward, "print(\"a\")\nprint(\"b\")\n");
    let swapped = bundle(
        &[("proj/main.lua", "require(\"b.lua\")\nrequire(\"a.lua\")\n"), a, b],
        "proj",
        false,
        "proj/main.lua",
    )
    .unwrap();
    assert_eq!(swapped, "print(\"b\")\nprint(\"a\")\n");
}

#[test]
fn several_initializers_give_one_load_each() {
    let files = [
        ("proj/main.lua", "local a, b, c = require(\"a.lua\"), 7, require(\"b.lua\")\n"),
        ("proj/a.lua", "return 1"),
        ("proj/b.lua", "return 2"),
    ];
    let out = bundle(&files, "proj", false, "proj/main.lua").unwrap();
    assert_eq!(
        out,
        "local a, b, c = (function() return 1 end)(), 7, (function() return 2 end)()\n"
    );
}

#[test]
fn the_same_module_loaded_twice_is_inlined_twice() {
    let files = [
        ("proj/main.lua", "local a = require(\"m.lua\")\nlocal b = require(\"m.lua\")\n"),
        ("proj/m.lua", "return {}"),
    ];
    let out = bundle(&files, "proj", false, "proj/main.lua").unwrap();
    assert_eq!(
        out,
        "local a = (function() return {} end)()\nlocal b = (function() return {} end)()\n"
    );
}

#[test]
fn identical_call_text_below_the_top_level_is_not_replaced() {
    let files = [
        (
            "proj/main.lua",
            "local function later() return require(\"m.lua\") end\nlocal m = require(\"m.lua\")\n",
        ),
        ("proj/m.lua", "return 1"),
    ];
    let out = bundle(&files, "proj", false, "proj/main.lua").unwrap();
    assert_eq!(
        out,
        "local function later() return require(\"m.lua\") end\nlocal m = (function() return 1 end)()\n"
    );
}

#[test]
fn modules_of_modules_are_inlined_depth_first() {
    let files = [
        ("proj/main.lua", "local a = require(\"lib/a.lua\")\nreturn a\n"),
        ("proj/lib/a.lua", "local b = require(\"b.lua\")\nreturn b + 1"),
        ("proj/lib/b.lua", "return 1"),
    ];
    let out = bundle(&files, "proj", false, "proj/main.lua").unwrap();
    assert_eq!(
        out,
        "local a = (function() local b = (function() return 1 end)()\nreturn b + 1 end)()\nreturn a\n"
    );
}

#[test]
fn root_policy_resolves_against_the_project_root() {
    let files = [
        ("proj/main.lua", "local a = require(\"lib/a.lua\")\n"),
        ("proj/lib/a.lua", "local b = require(\"lib/b.lua\")\nreturn b"),
        ("proj/lib/b.lua", "return 1"),
    ];
    let out = bundle(&files, "proj", true, "proj/main.lua").unwrap();
    assert_eq!(
        out,
        "local a = (function() local b = (function() return 1 end)()\nreturn b end)()\n"
    );
}

#[test]
fn file_policy_resolves_at_every_depth_against_the_referrer() {
    let files = [
        ("/p/main.lua", "local a = require(\"sub/a\")"),
        ("/p/sub/a", "local b = require(\"b\") return b"),
        ("/p/sub/b", "return 1"),
        ("/p/b", "return 2"),
    ];
    let out = bundle(&files, "/p", false, "/p/main.lua").unwrap();
    assert_eq!(
        out,
        "local a = (function() local b = (function() return 1 end)() return b end)()"
    );
}

#[test]
fn root_policy_resolves_at_every_depth_against_the_root() {
    let files = [
        ("/p/main.lua", "local a = require(\"sub/a\")"),
        ("/p/sub/a", "local b = require(\"b\") return b"),
        ("/p/sub/b", "return 1"),
        ("/p/b", "return 2"),
    ];
    let out = bundle(&files, "/p", true, "/p/main.lua").unwrap();
    assert_eq!(
        out,
        "local a = (function() local b = (function() return 2 end)() return b end)()"
    );
}

#[test]
fn parent_traversal_is_passed_through() {
    let files = [
        ("proj/src/main.lua", "require(\"../lib/a.lua\")\n"),
        ("proj/src/../lib/a.lua", "print(1)"),
    ];
    let out = bundle(&files, "proj", false, "proj/src/main.lua").unwrap();
    assert_eq!(out, "print(1)\n");
}

#[test]
fn text_outside_ascii_keeps_its_bytes() {
    let files = [
        ("proj/main.lua", "local s = \"héllo ✓\"\nlocal m = require(\"m.lua\") -- après\n"),
        ("proj/m.lua", "return \"ünï\""),
    ];
    let out = bundle(&files, "proj", false, "proj/main.lua").unwrap();
    assert_eq!(
        out,
        "local s = \"héllo ✓\"\nlocal m = (function() return \"ünï\" end)() -- après\n"
    );
}

#[test]
fn missing_file_is_asked_for_by_name() {
    let mut replacer = RequireReplacer::new("proj", Visitor, false);
    let first = replacer.replace_requires("proj/main.lua").unwrap_err();
    assert_eq!(first.kind, ErrorKind::Absent);
    assert_eq!(first.path, "proj/main.lua");
    assert!(first.chain.is_empty());
    replacer.add_source("proj/main.lua", "proj/main.lua", "require(\"m.lua\")\n");
    let second = replacer.replace_requires("proj/main.lua").unwrap_err();
    assert_eq!(second.kind, ErrorKind::Absent);
    assert_eq!(second.path, "proj/m.lua");
    assert_eq!(second.chain, vec!["proj/main.lua".to_string()]);
    assert_eq!(replacer.loaded().len(), 1);
}

#[test]
fn unreadable_module_fails_the_whole_bundle_and_names_its_referrer() {
    let files = [("proj/main.lua", "print(1)\nlocal m = require(\"missing.lua\")\n")];
    let error = bundle(&files, "proj", false, "proj/main.lua").unwrap_err();
    assert_eq!(error.kind, ErrorKind::File(Fault::Unreadable));
    assert_eq!(error.path, "proj/missing.lua");
    assert_eq!(error.chain, vec!["proj/main.lua".to_string()]);
    assert_eq!(
        error.describe(),
        "cannot read file: proj/missing.lua\n  required by proj/main.lua"
    );
}

#[test]
fn failure_deep_down_names_the_full_chain() {
    let files = [
        ("proj/main.lua", "local a = require(\"a.lua\")\n"),
        ("proj/a.lua", "local b = require(\"b.lua\")\nreturn b"),
    ];
    let error = bundle(&files, "proj", false, "proj/main.lua").unwrap_err();
    assert_eq!(error.kind, ErrorKind::File(Fault::Unreadable));
    assert_eq!(error.path, "proj/b.lua");
    assert_eq!(error.chain, vec!["proj/main.lua".to_string(), "proj/a.lua".to_string()]);
    assert_eq!(
        error.describe(),
        "cannot read file: proj/b.lua\n  required by proj/a.lua\n  required by proj/main.lua"
    );
}

#[test]
fn unreadable_entry_has_an_empty_chain() {
    let error = bundle(&[], "proj", false, "proj/main.lua").unwrap_err();
    assert_eq!(error.kind, ErrorKind::File(Fault::Unreadable));
    assert_eq!(error.path, "proj/main.lua");
    assert!(error.chain.is_empty());
    assert_eq!(error.describe(), "cannot read file: proj/main.lua");
}

#[test]
fn malformed_module_is_a_parse_fault() {
    let files = [("proj/main.lua", "require(\"m.lua\")\n"), ("proj/m.lua", "local x = ")];
    let error = bundle(&files, "proj", false, "proj/main.lua").unwrap_err();
    assert_eq!(error.kind, ErrorKind::File(Fault::Parse));
    assert_eq!(error.path, "proj/m.lua");
    assert_eq!(error.chain, vec!["proj/main.lua".to_string()]);
}

#[test]
fn load_cycle_is_detected() {
    let files = [
        ("proj/a.lua", "local b = require(\"b.lua\")\n"),
        ("proj/b.lua", "local a = require(\"a.lua\")\n"),
    ];
    let error = bundle(&files, "proj", false, "proj/a.lua").unwrap_err();
    assert_eq!(error.kind, ErrorKind::Cycle);
    assert_eq!(error.path, "proj/a.lua");
    assert_eq!(error.chain, vec!["proj/a.lua".to_string(), "proj/b.lua".to_string()]);
    assert_eq!(
        error.describe(),
        "file loads itself: proj/a.lua\n  required by proj/b.lua\n  required by proj/a.lua"
    );
}

#[test]
fn cycle_through_parent_traversal_is_detected() {
    let a = "local b = require(\"sub/b.lua\")\n";
    let files = [
        ("proj/a.lua", "/work/proj/a.lua", a),
        ("proj/sub/b.lua", "/work/proj/sub/b.lua", "local a = require(\"../a.lua\")\n"),
        ("proj/sub/../a.lua", "/work/proj/a.lua", a),
    ];
    let error = bundle_linked(&files, "proj", false, "proj/a.lua").unwrap_err();
    assert_eq!(error.kind, ErrorKind::Cycle);
    assert_eq!(error.path, "proj/sub/../a.lua");
    assert_eq!(error.chain, vec!["proj/a.lua".to_string(), "proj/sub/b.lua".to_string()]);
}

#[test]
fn one_file_under_two_paths_side_by_side_is_no_cycle() {
    let files = [
        ("proj/main.lua", "/work/proj/main.lua", "require(\"m.lua\")\nrequire(\"./m.lua\")\n"),
        ("proj/m.lua", "/work/proj/m.lua", "print(1)"),
        ("proj/./m.lua", "/work/proj/m.lua", "print(1)"),
    ];
    let out = bundle_linked(&files, "proj", false, "proj/main.lua").unwrap();
    assert_eq!(out, "print(1)\nprint(1)\n");
}

#[test]
fn file_that_loads_itself_under_another_path_is_a_cycle() {
    let files = [
        ("proj/a.lua", "/work/proj/a.lua", "require(\"./a.lua\")\n"),
        ("proj/./a.lua", "/work/proj/a.lua", "require(\"./a.lua\")\n"),
    ];
    let error = bundle_linked(&files, "proj", false, "proj/a.lua").unwrap_err();
    assert_eq!(error.kind, ErrorKind::Cycle);
    assert_eq!(error.path, "proj/./a.lua");
    assert_eq!(error.chain, vec!["proj/a.lua".to_string()]);
}

#[test]
fn file_that_loads_itself_is_a_cycle() {
    let files = [("proj/a.lua", "require(\"a.lua\")\n")];
    let error = bundle(&files, "proj", false, "proj/a.lua").unwrap_err();
    assert_eq!(error.kind, ErrorKind::Cycle);
    assert_eq!(error.chain, vec!["proj/a.lua".to_string()]);
}

#[test]
fn string_call_without_parentheses_is_a_shape_fault() {
    let files = [("proj/main.lua", "local m = require \"m.lua\"\n")];
    let error = bundle(&files, "proj", false, "proj/main.lua").unwrap_err();
    assert_eq!(error.kind, ErrorKind::File(Fault::Shape(ShapeFault::NotParenthesized)));
    assert_eq!(error.path, "proj/main.lua");
}

#[test]
fn literal_in_nested_parentheses_is_a_shape_fault() {
    let files = [("proj/main.lua", "local m = require((\"m.lua\"))\n")];
    let error = bundle(&files, "proj", false, "proj/main.lua").unwrap_err();
    assert_eq!(error.kind, ErrorKind::File(Fault::Shape(ShapeFault::NotParenthesized)));
}

#[test]
fn computed_path_is_a_shape_fault() {
    let files = [("proj/main.lua", "local m = require(\"m\" .. \".lua\")\n")];
    let error = bundle(&files, "proj", false, "proj/main.lua").unwrap_err();
    assert_eq!(error.kind, ErrorKind::File(Fault::Shape(ShapeFault::NotSingleLiteral)));
}

#[test]
fn several_arguments_are_a_shape_fault() {
    let files = [("proj/main.lua", "require(\"a.lua\", \"b.lua\")\n")];
    let error = bundle(&files, "proj", false, "proj/main.lua").unwrap_err();
    assert_eq!(error.kind, ErrorKind::File(Fault::Shape(ShapeFault::NotSingleLiteral)));
}

#[test]
fn variable_argument_is_a_missing_literal() {
    let files = [("proj/main.lua", "local m = require(name)\n")];
    let error = bundle(&files, "proj", false, "proj/main.lua").unwrap_err();
    assert_eq!(error.kind, ErrorKind::File(Fault::Shape(ShapeFault::MissingLiteral)));
    assert_eq!(error.describe(), "load call without a string literal: proj/main.lua");
}

#[test]
fn chained_call_is_a_shape_fault() {
    let files = [("proj/main.lua", "local m = require(\"m.lua\").new()\n")];
    let error = bundle(&files, "proj", false, "proj/main.lua").unwrap_err();
    assert_eq!(error.kind, ErrorKind::File(Fault::Shape(ShapeFault::Chained)));
}

#[test]
fn entry_without_parent_directory_cannot_resolve_its_loads() {
    let files = [("/", "require(\"m.lua\")\n")];
    let error = bundle(&files, "proj", false, "/").unwrap_err();
    assert_eq!(error.kind, ErrorKind::File(Fault::NoDirectory));
    assert_eq!(error.path, "/");
}

#[test]
fn first_fault_in_source_order_is_reported() {
    let files = [("proj/main.lua", "require(name)\nrequire \"m.lua\"\n")];
    let error = bundle(&files, "proj", false, "proj/main.lua").unwrap_err();
    assert_eq!(error.kind, ErrorKind::File(Fault::Shape(ShapeFault::MissingLiteral)));
}
