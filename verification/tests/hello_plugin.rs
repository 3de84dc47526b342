use hexerator::hello::{fill_selection_result, sum_range_params, sum_range_result, HelloPlugin};
use hexerator::app::App;
use hexerator::plugin_api::{AutoReloadType, HexeratorHandle, MethodResult, Value, ValueTy};

/// An editor holding `data`, with `sel` selected.
fn doc(data: Vec<u8>, sel: Option<(usize, usize)>) -> App {
    let mut app = App::new(b"doc.bin".to_vec(), data);
    app.selection = sel;
    app
}

fn err_msg(r: MethodResult) -> String {
    match r {
        Err(m) => m,
        Ok(_) => panic!("expected an error"),
    }
}

fn sum_of(r: MethodResult) -> u64 {
    match r {
        Ok(Some(Value::U64(n))) => n,
        _ => panic!("expected a u64"),
    }
}

#[test]
fn say_hello_logs_greeting() {
    let mut p = HelloPlugin { i: 3 };
    let mut doc = doc(vec![1, 2, 3], None);
    let r = p.on_method_called("say_hello", &[], &mut doc);
    assert!(matches!(r, Ok(None)));
    assert_eq!(doc.log, vec!["Hello world!".to_string()]);
    assert_eq!(doc.data, vec![1, 2, 3]);
    assert_eq!(p.i, 3);
    let r = p.on_method_called("fill_selection", &[], &mut doc);
    assert_eq!(err_msg(r), "Selection unavailable");
    assert_eq!(doc.log, vec!["Hello world!".to_string()]);
}

#[test]
fn fill_selection_fills_with_0x42() {
    let mut p = HelloPlugin { i: 0 };
    let mut doc = doc(vec![0, 1, 2, 3, 4, 5, 6, 7], Some((2, 4)));
    let r = p.on_method_called("fill_selection", &[], &mut doc);
    assert!(matches!(r, Ok(None)));
    assert_eq!(doc.data, vec![0, 1, 0x42, 0x42, 0x42, 5, 6, 7]);
}

#[test]
fn fill_selection_empty_range_changes_nothing() {
    let mut p = HelloPlugin { i: 0 };
    let mut doc = doc(vec![9, 9, 9], Some((2, 1)));
    let r = p.on_method_called("fill_selection", &[], &mut doc);
    assert!(matches!(r, Ok(None)));
    assert_eq!(doc.data, vec![9, 9, 9]);
}

#[test]
fn fill_selection_out_of_bounds() {
    let mut p = HelloPlugin { i: 0 };
    let mut doc = doc(vec![1, 2, 3], Some((1, 3)));
    let r = p.on_method_called("fill_selection", &[], &mut doc);
    assert_eq!(err_msg(r), "Selection out of bounds");
    assert_eq!(doc.data, vec![1, 2, 3]);
}

#[test]
fn fill_selection_without_selection() {
    let mut p = HelloPlugin { i: 0 };
    let mut doc = doc(vec![1, 2, 3], None);
    let r = p.on_method_called("fill_selection", &[], &mut doc);
    assert_eq!(err_msg(r), "Selection unavailable");
    assert_eq!(doc.data, vec![1, 2, 3]);
}

#[test]
fn sum_range_sums_inclusive_range() {
    let mut p = HelloPlugin { i: 0 };
    let mut doc = doc(vec![10, 20, 30, 40, 255], None);
    let r = p.on_method_called("sum_range", &[Some(Value::U64(1)), Some(Value::U64(4))], &mut doc);
    assert_eq!(sum_of(r), 20 + 30 + 40 + 255);
    let r = p.on_method_called("sum_range", &[Some(Value::U64(0)), Some(Value::U64(0))], &mut doc);
    assert_eq!(sum_of(r), 10);
    assert_eq!(doc.data, vec![10, 20, 30, 40, 255]);
}

#[test]
fn sum_range_invalid_params() {
    let mut p = HelloPlugin { i: 0 };
    let mut doc = doc(vec![1, 2, 3], None);
    let r = p.on_method_called("sum_range", &[Some(Value::U64(0))], &mut doc);
    assert_eq!(err_msg(r), "Invalid params");
    let r = p.on_method_called("sum_range", &[Some(Value::U64(0)), None], &mut doc);
    assert_eq!(err_msg(r), "Invalid params");
    let r = p.on_method_called(
        "sum_range",
        &[Some(Value::F64(1.0f64.to_bits())), Some(Value::U64(1))],
        &mut doc,
    );
    assert_eq!(err_msg(r), "Invalid params");
    let r = p.on_method_called(
        "sum_range",
        &[Some(Value::U64(0)), Some(Value::String("2".to_string()))],
        &mut doc,
    );
    assert_eq!(err_msg(r), "Invalid params");
    let r = p.on_method_called(
        "sum_range",
        &[Some(Value::U64(0)), Some(Value::U64(1)), Some(Value::U64(2))],
        &mut doc,
    );
    assert_eq!(err_msg(r), "Invalid params");
}

#[test]
fn sum_range_out_of_bounds() {
    let mut p = HelloPlugin { i: 0 };
    let mut doc = doc(vec![1, 2, 3], None);
    let r = p.on_method_called("sum_range", &[Some(Value::U64(1)), Some(Value::U64(3))], &mut doc);
    assert_eq!(err_msg(r), "Out of bounds");
    let r = p.on_method_called("sum_range", &[Some(Value::U64(3)), Some(Value::U64(1))], &mut doc);
    assert_eq!(err_msg(r), "Out of bounds");
}

#[test]
fn unknown_method_is_named_in_error() {
    let mut p = HelloPlugin { i: 0 };
    let mut doc = doc(vec![1], Some((0, 0)));
    let r = p.on_method_called("frobnicate", &[], &mut doc);
    assert_eq!(err_msg(r), "Unknown method: frobnicate");
    let r = p.on_method_called("Say_hello", &[], &mut doc);
    assert_eq!(err_msg(r), "Unknown method: Say_hello");
    assert_eq!(doc.data, vec![1]);
}

#[test]
fn sum_after_fill_is_fill_byte_times_length() {
    let mut p = HelloPlugin { i: 0 };
    let mut doc = doc((0..50u8).collect(), Some((7, 19)));
    assert!(matches!(p.on_method_called("fill_selection", &[], &mut doc), Ok(None)));
    let r = p.on_method_called("sum_range", &[Some(Value::U64(7)), Some(Value::U64(19))], &mut doc);
    assert_eq!(sum_of(r), 0x42 * 13);
}

#[test]
fn listed_methods_are_answered() {
    let mut p = HelloPlugin { i: 0 };
    let methods = p.methods();
    assert_eq!(methods.len(), 3);
    assert_eq!(methods[0].method_name, "say_hello");
    assert_eq!(methods[0].human_name, Some("Say hello"));
    assert_eq!(methods[0].desc, "Write 'hello' to debug log.");
    assert!(methods[0].params.is_empty());
    assert_eq!(methods[1].method_name, "fill_selection");
    assert_eq!(methods[1].human_name, Some("Fill selection"));
    assert_eq!(methods[1].desc, "Fills the selection with 0x42");
    assert!(methods[1].params.is_empty());
    assert_eq!(methods[2].method_name, "sum_range");
    assert_eq!(methods[2].human_name, None);
    assert_eq!(methods[2].desc, "Sums up the values in the provided range");
    assert_eq!(methods[2].params.len(), 2);
    assert_eq!(methods[2].params[0].name, "from");
    assert!(matches!(methods[2].params[0].ty, ValueTy::U64));
    assert_eq!(methods[2].params[1].name, "to");
    assert!(matches!(methods[2].params[1].ty, ValueTy::U64));
    for m in methods.iter() {
        let params: Vec<Option<Value>> =
            m.params.iter().map(|_| Some(Value::U64(0))).collect();
        let mut doc = doc(vec![5, 6], Some((0, 1)));
        let r = p.on_method_called(m.method_name, &params, &mut doc);
        assert!(r.is_ok(), "method {} was not answered", m.method_name);
    }
}

#[test]
fn plugin_describes_itself() {
    let p = HelloPlugin { i: 0 };
    assert_eq!(p.name(), "Hello world plugin");
    assert_eq!(p.desc(), "Hi! I'm an example plugin for Hexerator");
    let sp = p.source_provider_params().unwrap();
    assert_eq!(sp.human_name, "hello_world");
    assert!(!sp.is_stream);
    assert!(!sp.is_writable);
    assert!(!sp.is_savable);
    assert!(matches!(sp.auto_reload_type, AutoReloadType::OneShot));
}

#[test]
fn read_contents_counts_modulo_100() {
    let mut p = HelloPlugin { i: 0 };
    let o = p.sp_read_contents().unwrap();
    assert_eq!(o.len(), 100_000);
    assert_eq!(o[0], 0);
    assert_eq!(o[1], 1);
    assert_eq!(o[99], 99);
    assert_eq!(o[100], 0);
    assert_eq!(o[99_999], 99);
    assert_eq!(p.i, 1);
    let o2 = p.sp_read_contents().unwrap();
    assert_eq!(p.i, 2);
    for v in [0usize, 1, 57, 99, 12_345, 99_999] {
        assert_eq!(o2[v], (o[v] + 1) % 100);
    }
}

#[test]
fn read_exact_fills_from_lo() {
    let mut p = HelloPlugin { i: 3 };
    let mut buf = [7u8; 6];
    p.sp_read_exact(2, &mut buf).unwrap();
    assert_eq!(buf, [7, 7, 5, 7, 9, 11]);
    assert_eq!(p.i, 4);
    let mut buf = [7u8; 3];
    p.sp_read_exact(5, &mut buf).unwrap();
    assert_eq!(buf, [7, 7, 7]);
    assert_eq!(p.i, 5);
    let mut buf = [0u8; 60];
    let mut q = HelloPlugin { i: 0 };
    q.sp_read_exact(0, &mut buf).unwrap();
    assert_eq!(buf[49], 98);
    assert_eq!(buf[50], 0);
    assert_eq!(buf[59], 18);
}

#[test]
fn read_stream_counts_to_100_then_ends() {
    let mut p = HelloPlugin { i: 0 };
    let mut buf = [0u8; 4];
    for k in 0..100u8 {
        assert_eq!(p.sp_read_stream(&mut buf).unwrap(), 1);
        assert_eq!(buf[0], k);
    }
    assert_eq!(p.i, 100);
    for _ in 0..3 {
        assert_eq!(p.sp_read_stream(&mut buf).unwrap(), 0);
        assert_eq!(buf[0], 100);
        assert_eq!(p.i, 100);
    }
    assert_eq!(&buf[1..], &[0, 0, 0]);
}

#[test]
fn read_stream_past_the_end_counter_keeps_counting() {
    let mut p = HelloPlugin { i: 300 };
    let mut buf = [0u8; 1];
    assert_eq!(p.sp_read_stream(&mut buf).unwrap(), 1);
    assert_eq!(buf[0], 300u32 as u8);
    assert_eq!(p.i, 301);
}

#[test]
fn fill_selection_result_fills_handed_bytes() {
    let mut bytes = [1u8, 2, 3];
    assert!(matches!(fill_selection_result(Some(&mut bytes)), Ok(None)));
    assert_eq!(bytes, [0x42; 3]);
    let mut empty: [u8; 0] = [];
    assert!(matches!(fill_selection_result(Some(&mut empty)), Ok(None)));
    assert_eq!(err_msg(fill_selection_result(None)), "Selection out of bounds");
}

#[test]
fn sum_range_result_sums_handed_bytes() {
    assert_eq!(sum_of(sum_range_result(Some(&[255, 255, 1]))), 511);
    assert_eq!(sum_of(sum_range_result(Some(&[]))), 0);
    assert_eq!(err_msg(sum_range_result(None)), "Out of bounds");
    let filled = [0x42u8; 1000];
    assert_eq!(sum_of(sum_range_result(Some(&filled))), 0x42 * 1000);
}

#[test]
fn sum_range_params_needs_two_u64() {
    assert_eq!(sum_range_params(&[Some(Value::U64(3)), Some(Value::U64(9))]), Some((3, 9)));
    assert_eq!(sum_range_params(&[]), None);
    assert_eq!(sum_range_params(&[None, Some(Value::U64(9))]), None);
    assert_eq!(sum_range_params(&[Some(Value::F64(0)), Some(Value::U64(9))]), None);
}

#[test]
fn sum_range_on_editor_widens_bytes() {
    let mut p = HelloPlugin { i: 0 };
    let mut h = doc(vec![200u8, 100, 7], None);
    let r = p.on_method_called("sum_range", &[Some(Value::U64(0)), Some(Value::U64(1))], &mut h);
    assert_eq!(sum_of(r), 300);
    assert_eq!(h.data, vec![200, 100, 7]);
}

#[test]
fn editor_answers_plugins() {
    let mut h = doc(vec![1, 2, 3, 4], Some((1, 2)));
    assert_eq!(h.selection_range(), Some((1, 2)));
    assert_eq!(h.get_data(1, 2), Some(&[2u8, 3][..]));
    assert_eq!(h.get_data(4, 3), Some(&[][..]));
    assert_eq!(h.get_data(2, 4), None);
    assert_eq!(h.get_data(3, 1), None);
    h.get_data_mut(0, 1).unwrap().copy_from_slice(&[9, 8]);
    assert_eq!(h.data, vec![9, 8, 3, 4]);
    assert!(h.get_data_mut(0, 4).is_none());
    h.debug_log("a line");
    assert_eq!(h.log, vec!["a line".to_string()]);
    assert_eq!(h.data, vec![9, 8, 3, 4]);
}

#[test]
fn plugin_calls_leave_other_editor_fields_alone() {
    let mut p = HelloPlugin { i: 0 };
    let mut h = doc(vec![1, 2, 3, 4], Some((1, 2)));
    h.cursor = 3;
    h.starting_offset = 1;
    assert!(matches!(p.on_method_called("fill_selection", &[], &mut h), Ok(None)));
    assert_eq!(h.data, vec![1, 0x42, 0x42, 4]);
    assert_eq!(h.cursor, 3);
    assert_eq!(h.starting_offset, 1);
    assert_eq!(h.selection, Some((1, 2)));
    assert!(!h.dirty);
}
