use finch::compiler::Compiler;
use finch::convert::{RawObject, RawValue};
use finch::data::{DataSource, HostEnv};
use finch::error::FinchError;
use finch::transpiler::{Transpilable, Transpiler, TranspilerContext};
use finch::parser::ExpressionKind;

/// A scripted host: function 1 echoes its arguments, helper 2 wraps its
/// body, scripts echo their code; everything else fails.
struct ScriptedHost {
    calls: Vec<String>,
}

impl HostEnv for ScriptedHost {
    fn call_function(&mut self, func: &RawObject, args: Vec<RawValue>) -> Result<RawValue, String> {
        self.calls.push(format!("fn{}", func.0));
        if func.0 == 1 {
            let texts: Vec<String> = args.into_iter().map(|a| a.into_string()).collect();
            Ok(RawValue::Str(format!("f({})", texts.join("+"))))
        } else {
            Err("broken function".to_string())
        }
    }

    fn call_helper(
        &mut self,
        func: &RawObject,
        params: Vec<RawValue>,
        body: Option<String>,
    ) -> Result<RawValue, String> {
        self.calls.push(format!("helper{}", func.0));
        if func.0 == 2 {
            let texts: Vec<String> = params.into_iter().map(|p| p.into_string()).collect();
            let b = body.unwrap_or_else(|| "-".to_string());
            Ok(RawValue::Str(format!("[{}|{}]", texts.join(","), b)))
        } else {
            Err("broken helper".to_string())
        }
    }

    fn run_script(&mut self, code: &str, data: &RawObject) -> Result<RawValue, String> {
        self.calls.push(format!("script@{}", data.0));
        Ok(RawValue::Str(format!("ran:{code}")))
    }
}

fn host() -> ScriptedHost {
    ScriptedHost { calls: vec![] }
}

#[test]
fn calling_a_host_function_passes_evaluated_arguments() {
    let mut comp = Compiler::new();
    comp.add_template("t", "{{ f(1, \"a\") }}").unwrap();
    let mut ds = DataSource::new();
    let root = ds.add_object();
    ds.set_prop(root, "f", RawValue::Function(RawObject(1)));
    let mut h = host();
    let out = comp.compile("t", &ds, root, &mut h).unwrap();
    assert_eq!(out, "f(1+a)");
    assert_eq!(h.calls, vec!["fn1".to_string()]);
}

#[test]
fn a_host_function_failure_names_the_callee() {
    let mut comp = Compiler::new();
    comp.add_template("t", "{{ g() }}").unwrap();
    let mut ds = DataSource::new();
    let root = ds.add_object();
    ds.set_prop(root, "g", RawValue::Function(RawObject(9)));
    let r = comp.compile("t", &ds, root, &mut host());
    assert!(matches!(r, Err(FinchError::ErrInFunction(n)) if n == "g"));
}

#[test]
fn calling_a_non_function_is_rejected() {
    let mut comp = Compiler::new();
    comp.add_template("t", "{{ g() }}").unwrap();
    let mut ds = DataSource::new();
    let root = ds.add_object();
    ds.set_prop(root, "g", RawValue::Num("3".to_string()));
    let r = comp.compile("t", &ds, root, &mut host());
    assert!(matches!(r, Err(FinchError::NotCallable(n)) if n == "g"));
}

#[test]
fn calling_a_missing_name_is_rejected() {
    let mut comp = Compiler::new();
    comp.add_template("t", "{{ g() }}").unwrap();
    let mut ds = DataSource::new();
    let root = ds.add_object();
    let r = comp.compile("t", &ds, root, &mut host());
    assert!(matches!(r, Err(FinchError::PropNotExist(n)) if n == "g"));
}

#[test]
fn a_host_helper_gets_parameters_and_rendered_body() {
    let mut comp = Compiler::new();
    comp.add_helper("wrap".to_string(), RawObject(2));
    comp.add_template("t", "{{#wrap 1 \"a\"}}x{{y}}x{{/wrap}}").unwrap();
    let mut ds = DataSource::new();
    let root = ds.add_object();
    ds.set_prop(root, "y", RawValue::Str("Y".to_string()));
    let out = comp.compile("t", &ds, root, &mut host()).unwrap();
    assert_eq!(out, "[1,a|xYx]");
}

#[test]
fn a_self_closing_host_helper_gets_no_body() {
    let mut comp = Compiler::new();
    comp.add_helper("wrap".to_string(), RawObject(2));
    comp.add_template("t", "{{#wrap 5/}}").unwrap();
    let mut ds = DataSource::new();
    let root = ds.add_object();
    let out = comp.compile("t", &ds, root, &mut host()).unwrap();
    assert_eq!(out, "[5|-]");
}

#[test]
fn a_host_helper_failure_carries_the_message() {
    let mut comp = Compiler::new();
    comp.add_helper("bad".to_string(), RawObject(8));
    comp.add_template("t", "{{#bad/}}").unwrap();
    let ds_root = {
        let mut ds = DataSource::new();
        let root = ds.add_object();
        (ds, root)
    };
    let r = comp.compile("t", &ds_root.0, ds_root.1, &mut host());
    assert!(matches!(r, Err(FinchError::External(m)) if m == "broken helper"));
}

#[test]
fn registering_a_helper_shadows_a_builtin() {
    let mut comp = Compiler::new();
    comp.add_helper("if".to_string(), RawObject(2));
    comp.add_template("t", "{{#if \"p\"}}B{{/if}}").unwrap();
    let mut ds = DataSource::new();
    let root = ds.add_object();
    let out = comp.compile("t", &ds, root, &mut host()).unwrap();
    assert_eq!(out, "[p|B]");
}

#[test]
fn removing_a_helper_unregisters_it() {
    let mut comp = Compiler::new();
    comp.remove_helper("if");
    comp.add_template("t", "{{#if true}}A{{/if}}").unwrap();
    let mut ds = DataSource::new();
    let root = ds.add_object();
    let r = comp.compile("t", &ds, root, &mut host());
    assert!(matches!(r, Err(FinchError::HelperNotFound(n)) if n == "if"));
}

#[test]
fn removing_one_helper_keeps_the_others() {
    let mut comp = Compiler::new();
    comp.remove_helper("each");
    comp.add_template("t", "{{#if true}}A{{/if}}").unwrap();
    let mut ds = DataSource::new();
    let root = ds.add_object();
    assert_eq!(comp.compile("t", &ds, root, &mut host()).unwrap(), "A");
}

#[test]
fn js_helper_hands_the_raw_body_to_the_host() {
    let mut comp = Compiler::new();
    comp.add_template("t", "a{{#js}}1 + data.x{{/js}}b").unwrap();
    let mut ds = DataSource::new();
    let root = ds.add_object();
    let mut h = host();
    let out = comp.compile("t", &ds, root, &mut h).unwrap();
    assert_eq!(out, "aran:1 + data.xb");
    assert_eq!(h.calls, vec![format!("script@{root}")]);
}

#[test]
fn js_helper_without_a_body_is_an_error() {
    let mut comp = Compiler::new();
    comp.add_template("t", "{{#js/}}").unwrap();
    let mut ds = DataSource::new();
    let root = ds.add_object();
    let r = comp.compile("t", &ds, root, &mut host());
    assert!(matches!(r, Err(FinchError::ExpectedBody(n)) if n == "js"));
}

#[test]
fn transpiler_emits_literal_text_only() {
    let t = Transpiler::new();
    let mut ctx = TranspilerContext { transpiler: &t, original: "" };
    let s = ExpressionKind::Str("hi".to_string()).transpile(&mut ctx);
    assert_eq!(s, "hi");
    let n = ExpressionKind::Number("3.5".to_string()).transpile(&mut ctx);
    assert_eq!(n, "3.5");
    let v = ExpressionKind::Var("x".to_string()).transpile(&mut ctx);
    assert_eq!(v, "");
}
