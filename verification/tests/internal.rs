use kompilattheur::internal::{
    compose_error_message, error_messages_order, global_consts_order, internal_global_strings, runtime_error_message,
    InternalFuctions, InternalGlobalConst, RuntimeErrorMsg,
};

#[test]
fn function_names() {
    assert_eq!("main", InternalFuctions::Main.name());
    assert_eq!("__smolpp_f_generic_print", InternalFuctions::GenericPrint.name());
    assert_eq!("__smolpp_f_generic_compareGREATEREQ", InternalFuctions::GenericCompareGREATEREQ.name());
    assert_eq!("__smolpp_f_str_cmp", InternalFuctions::StrCmp.name());
    assert_eq!("llvm.debugtrap", InternalFuctions::Trap.name());
    assert_eq!("printf", InternalFuctions::Printf.name());
}

#[test]
fn global_names_and_values() {
    assert_eq!("__smolpp_g_none_string", InternalGlobalConst::NoneString.name());
    assert_eq!("None", InternalGlobalConst::NoneString.get_value());
    assert_eq!("__smolpp_g_list_separator_string", InternalGlobalConst::ListSeparatorStr.name());
    assert_eq!(", ", InternalGlobalConst::ListSeparatorStr.get_value());
    assert_eq!("range(%d)", InternalGlobalConst::RangeFormatString.get_value());
    assert_eq!("\n", InternalGlobalConst::LineReturn.get_value());
    assert_eq!("Expected type Range", InternalGlobalConst::ExpectedTypeRange.get_value());
    assert_eq!("__smolpp_g_can_only_concatenate", InternalGlobalConst::CanOnlyConcatenate.name());
    assert_eq!("__smolpp_g_error_out_of_bound", RuntimeErrorMsg::IndexOutOfBound.name());
    assert_eq!("__smolpp_g_localize_error", RuntimeErrorMsg::LocalizeError.name());
}

#[test]
fn message_parts() {
    assert_eq!(("IndexError:", "index %d out of bounds for list of length %d"), RuntimeErrorMsg::IndexOutOfBound.parts());
    assert_eq!(("At line :", " %d:%d"), RuntimeErrorMsg::LocalizeError.parts());
}

#[test]
fn composed_message() {
    assert_eq!("PANIC: Not implemented yet\u{1b}[0m\n", compose_error_message("PANIC:", "Not implemented yet"));
}

#[test]
fn messages_with_and_without_colours() {
    colored::control::set_override(false);
    assert_eq!(
        "TypeError: %s object is not iterable\u{1b}[0m\n",
        runtime_error_message(&RuntimeErrorMsg::InvalidTypeListFunction, (255, 0, 0), (255, 255, 0))
    );
    assert_eq!("At line :  %d:%d\u{1b}[0m\n", runtime_error_message(&RuntimeErrorMsg::LocalizeError, (1, 2, 3), (4, 5, 6)));

    colored::control::set_override(true);
    let m = runtime_error_message(&RuntimeErrorMsg::PanicNotImplemented, (255, 0, 0), (255, 255, 0));
    assert!(m.starts_with("\u{1b}["));
    assert!(m.contains("PANIC:"));
    assert!(m.contains("Not implemented yet"));
    assert!(m.ends_with("\u{1b}[0m\u{1b}[0m\n"));
    assert_ne!("PANIC: Not implemented yet\u{1b}[0m\n", m);
    let l = runtime_error_message(&RuntimeErrorMsg::LocalizeError, (1, 2, 3), (4, 5, 6));
    assert_eq!("\u{1b}[1mAt line :\u{1b}[0m  %d:%d\u{1b}[0m\n", l);
    colored::control::unset_override();
}

#[test]
fn creation_orders() {
    let consts = global_consts_order();
    assert_eq!(22, consts.len());
    assert_eq!(InternalGlobalConst::NoneString, consts[0]);
    assert_eq!(InternalGlobalConst::CanOnlyConcatenate, consts[21]);
    let msgs = error_messages_order();
    assert_eq!(17, msgs.len());
    assert_eq!(RuntimeErrorMsg::PanicGetlineError, msgs[2]);
    assert_eq!(RuntimeErrorMsg::PanicGetlineError, msgs[3]);
    assert_eq!(RuntimeErrorMsg::LocalizeError, msgs[16]);
}

#[test]
fn global_strings_plan() {
    colored::control::set_override(false);
    let plan = internal_global_strings((255, 0, 0), (255, 255, 0));
    assert_eq!(39, plan.len());
    assert_eq!("__smolpp_g_none_string", plan[0].name);
    assert_eq!("None", plan[0].value);
    assert_eq!("__smolpp_g_panic_invalid_type_fmt_string", plan[22].name);
    assert_eq!("PANIC: Invalid internal type value %d\u{1b}[0m\n", plan[22].value);
    assert_eq!(plan[24].name, plan[25].name);
    assert_eq!("__smolpp_g_localize_error", plan[38].name);
    colored::control::unset_override();
}

#[test]
fn global_and_function_names_are_distinct() {
    let mut names: Vec<String> = global_consts_order().iter().map(|c| c.name()).collect();
    let mut seen: Vec<RuntimeErrorMsg> = Vec::new();
    for m in error_messages_order() {
        if !seen.contains(&m) {
            seen.push(m);
            names.push(m.name());
        }
    }
    assert_eq!(38, names.len());
    let mut sorted = names.clone();
    sorted.sort();
    sorted.dedup();
    assert_eq!(38, sorted.len());
    for n in &names {
        assert!(n.starts_with("__smolpp_g_"));
    }

    let functions = [
        InternalFuctions::Main,
        InternalFuctions::GenericPrint,
        InternalFuctions::GenericCompareEQ,
        InternalFuctions::GenericCompareNEQ,
        InternalFuctions::GenericCompareLESS,
        InternalFuctions::GenericCompareLESSEQ,
        InternalFuctions::GenericCompareGREATER,
        InternalFuctions::GenericCompareGREATEREQ,
        InternalFuctions::ListCmp,
        InternalFuctions::StrCmp,
        InternalFuctions::BoolCast,
        InternalFuctions::GenericAdd,
        InternalFuctions::Trap,
        InternalFuctions::Puts,
        InternalFuctions::Printf,
    ];
    let mut fnames: Vec<String> = functions.iter().map(|f| f.name()).collect();
    let prefixed = fnames.iter().filter(|n| n.starts_with("__smolpp_f_")).count();
    assert_eq!(11, prefixed);
    fnames.sort();
    fnames.dedup();
    assert_eq!(15, fnames.len());
}
