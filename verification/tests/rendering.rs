use finch::compiler::Compiler;
use finch::convert::{RawObject, RawValue};
use finch::data::{DataSource, HostEnv};
use finch::error::FinchError;
use finch::memory::Memory;
use finch::parser::Parser;

/// A host that is never reached: every interaction fails.
struct NoHost;

impl HostEnv for NoHost {
    fn call_function(&mut self, _func: &RawObject, _args: Vec<RawValue>) -> Result<RawValue, String> {
        Err("no host".to_string())
    }

    fn call_helper(
        &mut self,
        _func: &RawObject,
        _params: Vec<RawValue>,
        _body: Option<String>,
    ) -> Result<RawValue, String> {
        Err("no host".to_string())
    }

    fn run_script(&mut self, _code: &str, _data: &RawObject) -> Result<RawValue, String> {
        Err("no host".to_string())
    }
}

fn render(tpl: &str, ds: &DataSource, root: usize) -> Result<String, FinchError> {
    let mut comp = Compiler::new();
    comp.add_template("main", tpl)?;
    comp.compile("main", ds, root, &mut NoHost)
}

fn empty_data() -> (DataSource, usize) {
    let mut ds = DataSource::new();
    let root = ds.add_object();
    (ds, root)
}

#[test]
fn template_without_tags_renders_unchanged() {
    let (ds, root) = empty_data();
    let source = "no tags here, just text: {not a tag} }} {";
    assert_eq!(render(source, &ds, root).unwrap(), source);
}

#[test]
fn literal_text_around_tags_is_kept_verbatim() {
    let mut ds = DataSource::new();
    let root = ds.add_object();
    ds.set_prop(root, "x", RawValue::Str("X".to_string()));
    assert_eq!(render("a {{x}} b {{x}}c", &ds, root).unwrap(), "a X b Xc");
}

#[test]
fn if_false_renders_nothing() {
    let (ds, root) = empty_data();
    assert_eq!(render("{{#if false}}A{{/if}}", &ds, root).unwrap(), "");
}

#[test]
fn if_true_renders_the_body() {
    let (ds, root) = empty_data();
    assert_eq!(render("{{#if true}}A{{/if}}", &ds, root).unwrap(), "A");
}

#[test]
fn if_false_with_else_renders_the_else_body() {
    let (ds, root) = empty_data();
    assert_eq!(render("{{#if false}}A{{#else}}B{{/if}}", &ds, root).unwrap(), "B");
}

#[test]
fn chained_if_selects_the_first_truthy_branch() {
    let (ds, root) = empty_data();
    let out = render("{{#if false}}A{{#if true}}B{{#else}}C{{/if}}{{/if}}", &ds, root).unwrap();
    assert_eq!(out, "B");
}

#[test]
fn chained_if_falls_through_to_else() {
    let (ds, root) = empty_data();
    let out = render("{{#if false}}A{{#if false}}B{{#else}}C{{/if}}{{/if}}", &ds, root).unwrap();
    assert_eq!(out, "C");
}

#[test]
fn each_renders_the_body_once_per_element_in_order() {
    let mut ds = DataSource::new();
    let root = ds.add_object();
    let list = RawValue::List(vec![
        RawValue::Num("1".to_string()),
        RawValue::Num("2".to_string()),
        RawValue::Num("3".to_string()),
    ]);
    ds.set_prop(root, "l", list);
    let out = render("{{#each l \"x\"}}({{x}}){{/each}}", &ds, root).unwrap();
    assert_eq!(out, "(1)(2)(3)");
}

#[test]
fn each_over_an_empty_list_renders_nothing() {
    let mut ds = DataSource::new();
    let root = ds.add_object();
    ds.set_prop(root, "l", RawValue::List(vec![]));
    assert_eq!(render("{{#each l \"x\"}}({{x}}){{/each}}", &ds, root).unwrap(), "");
}

#[test]
fn each_binding_shadows_an_outer_value() {
    let mut ds = DataSource::new();
    let root = ds.add_object();
    ds.set_prop(root, "x", RawValue::Str("outer".to_string()));
    ds.set_prop(root, "l", RawValue::List(vec![RawValue::Str("inner".to_string())]));
    // the loop binding wins inside the body; the outer value returns after
    let out = render("{{x}}|{{#each l \"x\"}}{{x}}{{/each}}|{{x}}", &ds, root).unwrap();
    assert_eq!(out, "outer|inner|outer");
}

#[test]
fn dotted_path_descends_through_objects() {
    let mut ds = DataSource::new();
    let root = ds.add_object();
    let a = ds.add_object();
    let b = ds.add_object();
    ds.set_prop(b, "c", RawValue::Str("x".to_string()));
    ds.set_prop(a, "b", RawValue::Object(RawObject(b)));
    ds.set_prop(root, "a", RawValue::Object(RawObject(a)));
    assert_eq!(render("{{ a.b.c }}", &ds, root).unwrap(), "x");
}

#[test]
fn dotted_path_missing_leaf_names_the_segment() {
    let mut ds = DataSource::new();
    let root = ds.add_object();
    let a = ds.add_object();
    let b = ds.add_object();
    ds.set_prop(a, "b", RawValue::Object(RawObject(b)));
    ds.set_prop(root, "a", RawValue::Object(RawObject(a)));
    let r = render("{{ a.b.c }}", &ds, root);
    assert!(matches!(r, Err(FinchError::PropNotExist(n)) if n == "c"));
}

#[test]
fn dotted_path_through_a_non_object_fails() {
    let mut ds = DataSource::new();
    let root = ds.add_object();
    ds.set_prop(root, "a", RawValue::Num("1".to_string()));
    assert!(matches!(render("{{ a.b }}", &ds, root), Err(FinchError::ExpectedObject)));
}

#[test]
fn missing_variable_names_the_property() {
    let (ds, root) = empty_data();
    assert!(matches!(render("{{nope}}", &ds, root), Err(FinchError::PropNotExist(n)) if n == "nope"));
}

#[test]
fn missing_template_names_it() {
    let (ds, root) = empty_data();
    let comp = Compiler::new();
    let r = comp.compile("missing-template", &ds, root, &mut NoHost);
    assert!(matches!(r, Err(FinchError::TemplateNotExist(n)) if n == "missing-template"));
}

#[test]
fn memoized_value_shadows_the_data_source() {
    // a value already in the scope stack wins over whatever the data source
    // would serve
    let st = Parser::parse("{{x}}{{x}}").unwrap();
    let src: Vec<char> = "{{x}}{{x}}".chars().collect();
    let comp = Compiler::new();
    let mut ds = DataSource::new();
    let root = ds.add_object();
    ds.set_prop(root, "x", RawValue::Str("fresh".to_string()));
    let mut cache = Memory::new();
    cache.set("x".to_string(), RawValue::Str("memo".to_string()));
    let out = st.compile(&src, &comp, &ds, root, &mut cache, &mut NoHost, 8).unwrap();
    let text: String = out.iter().collect();
    assert_eq!(text, "memomemo");
}

#[test]
fn first_resolution_is_memoized_in_the_scope() {
    let st = Parser::parse("{{x}}{{x}}").unwrap();
    let src: Vec<char> = "{{x}}{{x}}".chars().collect();
    let comp = Compiler::new();
    let mut ds = DataSource::new();
    let root = ds.add_object();
    ds.set_prop(root, "x", RawValue::Str("data".to_string()));
    let mut cache = Memory::new();
    let out = st.compile(&src, &comp, &ds, root, &mut cache, &mut NoHost, 8).unwrap();
    let text: String = out.iter().collect();
    assert_eq!(text, "datadata");
    assert!(matches!(cache.get(&"x".to_string()), Some(RawValue::Str(v)) if v == "data"));
}

#[test]
fn dotted_path_is_memoized_under_the_joined_key() {
    let st = Parser::parse("{{a.b}}").unwrap();
    let src: Vec<char> = "{{a.b}}".chars().collect();
    let comp = Compiler::new();
    let mut ds = DataSource::new();
    let root = ds.add_object();
    let a = ds.add_object();
    ds.set_prop(a, "b", RawValue::Str("leaf".to_string()));
    ds.set_prop(root, "a", RawValue::Object(RawObject(a)));
    let mut cache = Memory::new();
    let out = st.compile(&src, &comp, &ds, root, &mut cache, &mut NoHost, 8).unwrap();
    assert_eq!(out.iter().collect::<String>(), "leaf");
    assert!(matches!(cache.get(&"a.b".to_string()), Some(RawValue::Str(v)) if v == "leaf"));
}

#[test]
fn equality_operators_render_booleans() {
    let (ds, root) = empty_data();
    assert_eq!(render("{{1 == 1}}", &ds, root).unwrap(), "true");
    assert_eq!(render("{{1 == 2}}", &ds, root).unwrap(), "false");
    assert_eq!(render("{{1 != 2}}", &ds, root).unwrap(), "true");
    assert_eq!(render("{{\"a\" == \"a\"}}", &ds, root).unwrap(), "true");
    assert_eq!(render("{{\"1\" == 1}}", &ds, root).unwrap(), "false");
}

#[test]
fn ordering_operators_compare_numbers() {
    let (ds, root) = empty_data();
    assert_eq!(render("{{2 > 10}}", &ds, root).unwrap(), "false");
    assert_eq!(render("{{2 < 10}}", &ds, root).unwrap(), "true");
    assert_eq!(render("{{1.5 >= 1.5}}", &ds, root).unwrap(), "true");
    assert_eq!(render("{{1.45 <= 1.5}}", &ds, root).unwrap(), "true");
}

#[test]
fn ordering_non_numbers_is_an_error() {
    let (ds, root) = empty_data();
    assert!(matches!(render("{{\"a\" < 1}}", &ds, root), Err(FinchError::NotNumbers)));
}

#[test]
fn boolean_connectives_pick_an_operand() {
    let (ds, root) = empty_data();
    assert_eq!(render("{{\"a\" && \"b\"}}", &ds, root).unwrap(), "b");
    assert_eq!(render("{{\"\" && \"b\"}}", &ds, root).unwrap(), "");
    assert_eq!(render("{{\"a\" || \"b\"}}", &ds, root).unwrap(), "a");
    assert_eq!(render("{{\"\" || \"z\"}}", &ds, root).unwrap(), "z");
    assert_eq!(render("{{!0}}", &ds, root).unwrap(), "true");
    assert_eq!(render("{{!1}}", &ds, root).unwrap(), "false");
}

#[test]
fn short_circuit_marker_is_transparent() {
    let mut ds = DataSource::new();
    let root = ds.add_object();
    ds.set_prop(root, "x", RawValue::Num("7".to_string()));
    assert_eq!(render("{{x?}}", &ds, root).unwrap(), "7");
}

#[test]
fn truthiness_drives_the_if_helper() {
    let mut ds = DataSource::new();
    let root = ds.add_object();
    ds.set_prop(root, "empty", RawValue::Str(String::new()));
    ds.set_prop(root, "zerotext", RawValue::Str("0".to_string()));
    ds.set_prop(root, "list", RawValue::List(vec![]));
    assert_eq!(render("{{#if empty}}A{{#else}}B{{/if}}", &ds, root).unwrap(), "B");
    assert_eq!(render("{{#if zerotext}}A{{#else}}B{{/if}}", &ds, root).unwrap(), "A");
    assert_eq!(render("{{#if list}}A{{#else}}B{{/if}}", &ds, root).unwrap(), "A");
}

#[test]
fn unregistered_helper_names_itself() {
    let (ds, root) = empty_data();
    let r = render("{{#nosuch x}}A{{/nosuch}}", &ds, root);
    assert!(matches!(r, Err(FinchError::HelperNotFound(n)) if n == "nosuch"));
}

#[test]
fn each_requires_a_list_and_a_name() {
    let mut ds = DataSource::new();
    let root = ds.add_object();
    ds.set_prop(root, "l", RawValue::Num("1".to_string()));
    ds.set_prop(root, "good", RawValue::List(vec![]));
    assert!(matches!(render("{{#each}}B{{/each}}", &ds, root), Err(FinchError::InvalidArg(0))));
    assert!(matches!(render("{{#each l \"x\"}}B{{/each}}", &ds, root), Err(FinchError::InvalidArg(0))));
    assert!(matches!(render("{{#each good}}B{{/each}}", &ds, root), Err(FinchError::InvalidArg(1))));
    assert!(matches!(render("{{#each good 5}}B{{/each}}", &ds, root), Err(FinchError::InvalidArg(1))));
}

#[test]
fn each_without_a_body_is_an_error() {
    let mut ds = DataSource::new();
    let root = ds.add_object();
    ds.set_prop(root, "l", RawValue::List(vec![]));
    let r = render("{{#each l \"x\"/}}", &ds, root);
    assert!(matches!(r, Err(FinchError::ExpectedBody(n)) if n == "each"));
}

#[test]
fn if_without_a_body_is_an_error() {
    let (ds, root) = empty_data();
    let r = render("{{#if true/}}", &ds, root);
    assert!(matches!(r, Err(FinchError::ExpectedBody(n)) if n == "if"));
}

#[test]
fn template_include_renders_the_named_template() {
    let mut comp = Compiler::new();
    comp.add_template("inner", "[{{y}}]").unwrap();
    comp.add_template("outer", "a{{#template \"inner\" d/}}z").unwrap();
    let mut ds = DataSource::new();
    let root = ds.add_object();
    let inner = ds.add_object();
    ds.set_prop(inner, "y", RawValue::Str("Y".to_string()));
    ds.set_prop(root, "d", RawValue::Object(RawObject(inner)));
    let out = comp.compile("outer", &ds, root, &mut NoHost).unwrap();
    assert_eq!(out, "a[Y]z");
}

#[test]
fn template_include_requires_an_object_context() {
    let mut comp = Compiler::new();
    comp.add_template("inner", "x").unwrap();
    comp.add_template("outer", "{{#template \"inner\" d/}}").unwrap();
    let mut ds = DataSource::new();
    let root = ds.add_object();
    ds.set_prop(root, "d", RawValue::Num("1".to_string()));
    let r = comp.compile("outer", &ds, root, &mut NoHost);
    assert!(matches!(r, Err(FinchError::ExpectedObject)));
}

#[test]
fn template_include_of_a_missing_template_names_it() {
    let mut comp = Compiler::new();
    comp.add_template("outer", "{{#template \"ghost\" d/}}").unwrap();
    let mut ds = DataSource::new();
    let root = ds.add_object();
    let o = ds.add_object();
    ds.set_prop(root, "d", RawValue::Object(RawObject(o)));
    let r = comp.compile("outer", &ds, root, &mut NoHost);
    assert!(matches!(r, Err(FinchError::TemplateNotExist(n)) if n == "ghost"));
}

#[test]
fn template_include_with_a_body_is_rejected() {
    let mut comp = Compiler::new();
    comp.add_template("inner", "x").unwrap();
    comp.add_template("outer", "{{#template \"inner\" d}}body{{/template}}").unwrap();
    let mut ds = DataSource::new();
    let root = ds.add_object();
    let o = ds.add_object();
    ds.set_prop(root, "d", RawValue::Object(RawObject(o)));
    let r = comp.compile("outer", &ds, root, &mut NoHost);
    assert!(matches!(r, Err(FinchError::UnexpectedBody(n)) if n == "template"));
}

#[test]
fn self_inclusion_hits_the_depth_bound() {
    let mut comp = Compiler::new();
    comp.add_template("self", "{{#template \"self\" d/}}").unwrap();
    let mut ds = DataSource::new();
    let root = ds.add_object();
    ds.set_prop(root, "d", RawValue::Object(RawObject(root)));
    let r = comp.compile("self", &ds, root, &mut NoHost);
    assert!(matches!(r, Err(FinchError::RecursionLimit)));
}

#[test]
fn registering_a_template_again_shadows_the_old_one() {
    let mut comp = Compiler::new();
    comp.add_template("t", "one").unwrap();
    comp.add_template("t", "two").unwrap();
    let (ds, root) = empty_data();
    assert_eq!(comp.compile("t", &ds, root, &mut NoHost).unwrap(), "two");
}

#[test]
fn a_parse_error_registers_nothing() {
    let mut comp = Compiler::new();
    assert!(comp.add_template("bad", "{{%}}").is_err());
    let (ds, root) = empty_data();
    let r = comp.compile("bad", &ds, root, &mut NoHost);
    assert!(matches!(r, Err(FinchError::TemplateNotExist(_))));
}

#[test]
fn numbers_render_canonically() {
    let (ds, root) = empty_data();
    assert_eq!(render("{{1_000.50}}", &ds, root).unwrap(), "1000.5");
    assert_eq!(render("{{007}}", &ds, root).unwrap(), "7");
}
