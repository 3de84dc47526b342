use hexerator::plugin_api::PluginMenuAction::{Keep, Reload, Unload};
use hexerator::plugin_api::{
    method_call_message, plugins_after_menu, MethodParam, PluginMenuAction, PluginMethod, Value,
    ValueTy,
};
use hexerator::text::{decimal_string, joined, owned, str_eq};

#[test]
fn value_type_labels() {
    assert_eq!(ValueTy::U64.label(), "u64");
    assert_eq!(ValueTy::String.label(), "string");
    assert_ne!(ValueTy::U64.label(), ValueTy::String.label());
}

#[test]
fn display_name_prefers_human_name() {
    let m = PluginMethod { method_name: "sum_range", human_name: None, desc: "", params: &[] };
    assert_eq!(m.display_name(), "sum_range");
    let m = PluginMethod {
        method_name: "say_hello",
        human_name: Some("Say hello"),
        desc: "",
        params: &[],
    };
    assert_eq!(m.display_name(), "Say hello");
}

#[test]
fn param_signature() {
    let p = MethodParam { name: "from", ty: ValueTy::U64 };
    assert_eq!(p.signature(), "from: u64,");
    let p = MethodParam { name: "text", ty: ValueTy::String };
    assert_eq!(p.signature(), "text: string,");
}

#[test]
fn method_call_messages() {
    assert_eq!(method_call_message("sum_range", &Value::U64(0)).unwrap(), "sum_range: 0");
    assert_eq!(method_call_message("sum_range", &Value::U64(1260)).unwrap(), "sum_range: 1260");
    assert_eq!(
        method_call_message("m", &Value::String("hi there".to_string())).unwrap(),
        "m: hi there"
    );
    assert!(method_call_message("m", &Value::F64(2.5f64.to_bits())).is_none());
}

#[test]
fn decimal_matches_to_string() {
    for n in [0u64, 1, 9, 10, 11, 99, 100, 101, 12345, 1_000_000, u64::MAX - 1, u64::MAX] {
        assert_eq!(decimal_string(n), n.to_string());
    }
}

#[test]
fn string_helpers() {
    assert!(str_eq("abc", "abc"));
    assert!(str_eq("", ""));
    assert!(!str_eq("abc", "abd"));
    assert!(!str_eq("abc", "ab"));
    assert!(str_eq("é", "é"));
    assert_eq!(owned("x y"), "x y");
    assert_eq!(joined("Unknown method: ", "foo"), "Unknown method: foo");
}

#[test]
fn plugins_menu_keeps_untouched_plugins() {
    let (kept, reload) = plugins_after_menu(&vec![Keep, Unload, Keep, Reload, Keep]);
    assert_eq!(kept, vec![0, 2, 4]);
    assert_eq!(reload, Some(3));
    let (kept, reload) = plugins_after_menu(&vec![Reload, Reload, Keep]);
    assert_eq!(kept, vec![2]);
    assert_eq!(reload, Some(1));
    let (kept, reload) = plugins_after_menu(&vec![]);
    assert!(kept.is_empty());
    assert_eq!(reload, None);
}
