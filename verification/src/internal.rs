use vstd::prelude::*;

use colored::Colorize;

use crate::text::{chars_of, decimal, string_of_chars};
use crate::token::Token;

verus! {

/// The functions that every generated program holds besides the user's: the entry
/// point, the runtime helpers, and the C functions they call.
#[derive(PartialEq, Eq, Structural, Clone, Copy, Debug)]
pub enum InternalFuctions {
    Main,
    GenericPrint,
    GenericCompareEQ,
    GenericCompareNEQ,
    GenericCompareLESS,
    GenericCompareLESSEQ,
    GenericCompareGREATER,
    GenericCompareGREATEREQ,
    ListCmp,
    StrCmp,
    BoolCast,
    GenericAdd,
    Trap,
    Puts,
    Printf,
}

/// The prefix of the names of the runtime helper functions.
pub open spec fn function_prefix() -> Seq<char> {
    "__smolpp_f_"@
}

impl InternalFuctions {
    /// The symbol name of the function: the entry point and the C functions keep their
    /// usual names, the runtime helpers are `__smolpp_f_` followed by their own name.
    pub open spec fn symbol(self) -> Seq<char> {
        match self {
            InternalFuctions::Main => "main"@,
            InternalFuctions::GenericPrint => function_prefix() + "generic_print"@,
            InternalFuctions::GenericCompareEQ => function_prefix() + "generic_compareEQ"@,
            InternalFuctions::GenericCompareNEQ => function_prefix() + "generic_compareNEQ"@,
            InternalFuctions::GenericCompareLESS => function_prefix() + "generic_compareLESS"@,
            InternalFuctions::GenericCompareLESSEQ => function_prefix() + "generic_compareLESSEQ"@,
            InternalFuctions::GenericCompareGREATER => function_prefix() + "generic_compareGREATER"@,
            InternalFuctions::GenericCompareGREATEREQ => function_prefix() + "generic_compareGREATEREQ"@,
            InternalFuctions::ListCmp => function_prefix() + "list_cmp"@,
            InternalFuctions::StrCmp => function_prefix() + "str_cmp"@,
            InternalFuctions::BoolCast => function_prefix() + "bool_cast"@,
            InternalFuctions::GenericAdd => function_prefix() + "generic_add"@,
            InternalFuctions::Trap => "llvm.debugtrap"@,
            InternalFuctions::Puts => "puts"@,
            InternalFuctions::Printf => "printf"@,
        }
    }

    /// Whether the function is one of the runtime helpers (named with the prefix).
    pub open spec fn is_helper(self) -> bool {
        !(self is Main || self is Trap || self is Puts || self is Printf)
    }

    /// The symbol name of the function (see `symbol`).
    pub fn name(&self) -> (s: String)
        ensures
            s@ == self.symbol(),
    {
        match self {
            InternalFuctions::Main => string_of_chars(chars_of("main").as_slice()),
            InternalFuctions::GenericPrint => prefixed_function("generic_print"),
            InternalFuctions::GenericCompareEQ => prefixed_function("generic_compareEQ"),
            InternalFuctions::GenericCompareNEQ => prefixed_function("generic_compareNEQ"),
            InternalFuctions::GenericCompareLESS => prefixed_function("generic_compareLESS"),
            InternalFuctions::GenericCompareLESSEQ => prefixed_function("generic_compareLESSEQ"),
            InternalFuctions::GenericCompareGREATER => prefixed_function("generic_compareGREATER"),
            InternalFuctions::GenericCompareGREATEREQ => prefixed_function("generic_compareGREATEREQ"),
            InternalFuctions::ListCmp => prefixed_function("list_cmp"),
            InternalFuctions::StrCmp => prefixed_function("str_cmp"),
            InternalFuctions::BoolCast => prefixed_function("bool_cast"),
            InternalFuctions::GenericAdd => prefixed_function("generic_add"),
            InternalFuctions::Trap => string_of_chars(chars_of("llvm.debugtrap").as_slice()),
            InternalFuctions::Puts => string_of_chars(chars_of("puts").as_slice()),
            InternalFuctions::Printf => string_of_chars(chars_of("printf").as_slice()),
        }
    }
}

/// The text `prefix` followed by `name`.
fn concat_str(prefix: &str, name: &str) -> (s: String)
    ensures
        s@ == prefix@ + name@,
{
    let mut v = chars_of(prefix);
    let mut w = chars_of(name);
    v.append(&mut w);
    string_of_chars(v.as_slice())
}

/// `__smolpp_f_` followed by `name`.
fn prefixed_function(name: &str) -> (s: String)
    ensures
        s@ == function_prefix() + name@,
{
    concat_str("__smolpp_f_", name)
}

/// The prefix of the names of the global constants of a generated program.
pub open spec fn global_prefix() -> Seq<char> {
    "__smolpp_g_"@
}

/// `__smolpp_g_` followed by `name`.
fn prefixed_global(name: &str) -> (s: String)
    ensures
        s@ == global_prefix() + name@,
{
    concat_str("__smolpp_g_", name)
}

/// The constant strings that every generated program holds.
#[derive(PartialEq, Eq, Structural, Clone, Copy, Debug)]
pub enum InternalGlobalConst {
    /// How `None` is printed.
    NoneString,
    /// How `True` is printed.
    TrueString,
    /// How `False` is printed.
    FalseString,
    /// Opening bracket of a printed list.
    ListOpeningStr,
    /// Closing bracket of a printed list.
    ListClosingStr,
    /// Separator between the items of a printed list.
    ListSeparatorStr,
    /// Format string that turns an integer into text.
    IntFormatString,
    /// Format string that prints a range.
    RangeFormatString,
    /// A line break.
    LineReturn,
    IntType,
    StringType,
    BoolType,
    ListType,
    RangeType,
    NoneType,
    ExpectedTypeNone,
    ExpectedTypeInt,
    ExpectedTypeBool,
    ExpectedTypeString,
    ExpectedTypeList,
    ExpectedTypeRange,
    CanOnlyConcatenate,
}

impl InternalGlobalConst {
    /// The name of the global, after the prefix `__smolpp_g_`.
    pub open spec fn suffix(self) -> Seq<char> {
        match self {
            InternalGlobalConst::NoneString => "none_string"@,
            InternalGlobalConst::TrueString => "true_string"@,
            InternalGlobalConst::FalseString => "false_string"@,
            InternalGlobalConst::ListOpeningStr => "list_open_brace_string"@,
            InternalGlobalConst::ListClosingStr => "list_close_brace_string"@,
            InternalGlobalConst::ListSeparatorStr => "list_separator_string"@,
            InternalGlobalConst::IntFormatString => "int_fmt_string"@,
            InternalGlobalConst::RangeFormatString => "range_fmt_string"@,
            InternalGlobalConst::LineReturn => "line_return"@,
            InternalGlobalConst::IntType => "int_type"@,
            InternalGlobalConst::StringType => "string_type"@,
            InternalGlobalConst::BoolType => "bool_type"@,
            InternalGlobalConst::ListType => "list_type"@,
            InternalGlobalConst::RangeType => "range_type"@,
            InternalGlobalConst::NoneType => "none_type"@,
            InternalGlobalConst::ExpectedTypeNone => "expected_type_none"@,
            InternalGlobalConst::ExpectedTypeInt => "expected_type_int"@,
            InternalGlobalConst::ExpectedTypeBool => "expected_type_bool"@,
            InternalGlobalConst::ExpectedTypeString => "expected_type_string"@,
            InternalGlobalConst::ExpectedTypeList => "expected_type_list"@,
            InternalGlobalConst::ExpectedTypeRange => "expected_type_range"@,
            InternalGlobalConst::CanOnlyConcatenate => "can_only_concatenate"@,
        }
    }

    /// The text the global holds.
    pub open spec fn value(self) -> Seq<char> {
        match self {
            InternalGlobalConst::NoneString => "None"@,
            InternalGlobalConst::TrueString => "True"@,
            InternalGlobalConst::FalseString => "False"@,
            InternalGlobalConst::ListOpeningStr => "["@,
            InternalGlobalConst::ListClosingStr => "]"@,
            InternalGlobalConst::ListSeparatorStr => ", "@,
            InternalGlobalConst::IntFormatString => "%d"@,
            InternalGlobalConst::RangeFormatString => "range(%d)"@,
            InternalGlobalConst::LineReturn => "\n"@,
            InternalGlobalConst::IntType => "Int"@,
            InternalGlobalConst::StringType => "String"@,
            InternalGlobalConst::BoolType => "Bool"@,
            InternalGlobalConst::ListType => "List"@,
            InternalGlobalConst::RangeType => "Range"@,
            InternalGlobalConst::NoneType => "None"@,
            InternalGlobalConst::ExpectedTypeNone => "Expected type None"@,
            InternalGlobalConst::ExpectedTypeInt => "Expected type Int"@,
            InternalGlobalConst::ExpectedTypeBool => "Expected type Bool"@,
            InternalGlobalConst::ExpectedTypeString => "Expected type String"@,
            InternalGlobalConst::ExpectedTypeList => "Expected type List"@,
            InternalGlobalConst::ExpectedTypeRange => "Expected type Range"@,
            InternalGlobalConst::CanOnlyConcatenate => "can only concatenate"@,
        }
    }

    /// The name of the global: `__smolpp_g_` followed by `suffix`.
    pub fn name(&self) -> (s: String)
        ensures
            s@ == global_prefix() + self.suffix(),
    {
        match self {
            InternalGlobalConst::NoneString => prefixed_global("none_string"),
            InternalGlobalConst::TrueString => prefixed_global("true_string"),
            InternalGlobalConst::FalseString => prefixed_global("false_string"),
            InternalGlobalConst::ListOpeningStr => prefixed_global("list_open_brace_string"),
            InternalGlobalConst::ListClosingStr => prefixed_global("list_close_brace_string"),
            InternalGlobalConst::ListSeparatorStr => prefixed_global("list_separator_string"),
            InternalGlobalConst::IntFormatString => prefixed_global("int_fmt_string"),
            InternalGlobalConst::RangeFormatString => prefixed_global("range_fmt_string"),
            InternalGlobalConst::LineReturn => prefixed_global("line_return"),
            InternalGlobalConst::IntType => prefixed_global("int_type"),
            InternalGlobalConst::StringType => prefixed_global("string_type"),
            InternalGlobalConst::BoolType => prefixed_global("bool_type"),
            InternalGlobalConst::ListType => prefixed_global("list_type"),
            InternalGlobalConst::RangeType => prefixed_global("range_type"),
            InternalGlobalConst::NoneType => prefixed_global("none_type"),
            InternalGlobalConst::ExpectedTypeNone => prefixed_global("expected_type_none"),
            InternalGlobalConst::ExpectedTypeInt => prefixed_global("expected_type_int"),
            InternalGlobalConst::ExpectedTypeBool => prefixed_global("expected_type_bool"),
            InternalGlobalConst::ExpectedTypeString => prefixed_global("expected_type_string"),
            InternalGlobalConst::ExpectedTypeList => prefixed_global("expected_type_list"),
            InternalGlobalConst::ExpectedTypeRange => prefixed_global("expected_type_range"),
            InternalGlobalConst::CanOnlyConcatenate => prefixed_global("can_only_concatenate"),
        }
    }

    /// The text the global holds (see `value`).
    pub fn get_value(&self) -> (s: &'static str)
        ensures
            s@ == self.value(),
    {
        match self {
            InternalGlobalConst::NoneString => "None",
            InternalGlobalConst::TrueString => "True",
            InternalGlobalConst::FalseString => "False",
            InternalGlobalConst::ListOpeningStr => "[",
            InternalGlobalConst::ListClosingStr => "]",
            InternalGlobalConst::ListSeparatorStr => ", ",
            InternalGlobalConst::IntFormatString => "%d",
            InternalGlobalConst::RangeFormatString => "range(%d)",
            InternalGlobalConst::LineReturn => "\n",
            InternalGlobalConst::IntType => "Int",
            InternalGlobalConst::StringType => "String",
            InternalGlobalConst::BoolType => "Bool",
            InternalGlobalConst::ListType => "List",
            InternalGlobalConst::RangeType => "Range",
            InternalGlobalConst::NoneType => "None",
            InternalGlobalConst::ExpectedTypeNone => "Expected type None",
            InternalGlobalConst::ExpectedTypeInt => "Expected type Int",
            InternalGlobalConst::ExpectedTypeBool => "Expected type Bool",
            InternalGlobalConst::ExpectedTypeString => "Expected type String",
            InternalGlobalConst::ExpectedTypeList => "Expected type List",
            InternalGlobalConst::ExpectedTypeRange => "Expected type Range",
            InternalGlobalConst::CanOnlyConcatenate => "can only concatenate",
        }
    }
}

/// The runtime error messages that every generated program holds.
#[derive(PartialEq, Eq, Structural, Clone, Copy, Debug)]
pub enum RuntimeErrorMsg {
    /// An invalid type value met while comparing types (takes the value).
    PanicInvalidInternalTypeValueFormatString,
    /// Something that is not implemented yet was generated.
    PanicNotImplemented,
    /// A type error met during a generic comparison.
    PanicInvalidInternalTypeCompareGeneric,
    /// Adding two values of different types.
    PanicInvalidInternalTypeAddGeneric,
    /// Reading a line failed.
    PanicGetlineError,
    /// A value does not have the expected type (takes a message).
    TypeError,
    TypeErrorDyn,
    CompareGreater,
    CompareGreaterEq,
    CompareLess,
    CompareLessEq,
    /// Index and length.
    IndexOutOfBound,
    InvalidTypeListFunction,
    InvalidStringForIntFunction,
    PanicInvalidInternalTypeInTypeFunction,
    /// Gives the line and column of an error.
    LocalizeError,
}

impl RuntimeErrorMsg {
    /// The name of the global holding the message, after the prefix `__smolpp_g_`.
    pub open spec fn suffix(self) -> Seq<char> {
        match self {
            RuntimeErrorMsg::PanicInvalidInternalTypeValueFormatString => "panic_invalid_type_fmt_string"@,
            RuntimeErrorMsg::PanicNotImplemented => "panic_unimplemented"@,
            RuntimeErrorMsg::PanicInvalidInternalTypeCompareGeneric => "panic_invalid_type_compare_generic"@,
            RuntimeErrorMsg::PanicInvalidInternalTypeAddGeneric => "panic_invalid_type_add_generic"@,
            RuntimeErrorMsg::PanicGetlineError => "panic_getline_error"@,
            RuntimeErrorMsg::TypeError => "error_type"@,
            RuntimeErrorMsg::TypeErrorDyn => "error_type_dyn"@,
            RuntimeErrorMsg::CompareGreater => "compare_greater"@,
            RuntimeErrorMsg::CompareGreaterEq => "compare_greater_eq"@,
            RuntimeErrorMsg::CompareLess => "compare_less"@,
            RuntimeErrorMsg::CompareLessEq => "compare_less_eq"@,
            RuntimeErrorMsg::IndexOutOfBound => "error_out_of_bound"@,
            RuntimeErrorMsg::InvalidTypeListFunction => "invalid_type_list_function"@,
            RuntimeErrorMsg::InvalidStringForIntFunction => "invalid_string_value_int_function"@,
            RuntimeErrorMsg::PanicInvalidInternalTypeInTypeFunction => "panic_invalid_type_in_type_function"@,
            RuntimeErrorMsg::LocalizeError => "localize_error"@,
        }
    }

    /// The name of the global holding the message: `__smolpp_g_` followed by `suffix`.
    pub fn name(&self) -> (s: String)
        ensures
            s@ == global_prefix() + self.suffix(),
    {
        match self {
            RuntimeErrorMsg::PanicInvalidInternalTypeValueFormatString => prefixed_global("panic_invalid_type_fmt_string"),
            RuntimeErrorMsg::PanicNotImplemented => prefixed_global("panic_unimplemented"),
            RuntimeErrorMsg::PanicInvalidInternalTypeCompareGeneric => prefixed_global("panic_invalid_type_compare_generic"),
            RuntimeErrorMsg::PanicInvalidInternalTypeAddGeneric => prefixed_global("panic_invalid_type_add_generic"),
            RuntimeErrorMsg::PanicGetlineError => prefixed_global("panic_getline_error"),
            RuntimeErrorMsg::TypeError => prefixed_global("error_type"),
            RuntimeErrorMsg::TypeErrorDyn => prefixed_global("error_type_dyn"),
            RuntimeErrorMsg::CompareGreater => prefixed_global("compare_greater"),
            RuntimeErrorMsg::CompareGreaterEq => prefixed_global("compare_greater_eq"),
            RuntimeErrorMsg::CompareLess => prefixed_global("compare_less"),
            RuntimeErrorMsg::CompareLessEq => prefixed_global("compare_less_eq"),
            RuntimeErrorMsg::IndexOutOfBound => prefixed_global("error_out_of_bound"),
            RuntimeErrorMsg::InvalidTypeListFunction => prefixed_global("invalid_type_list_function"),
            RuntimeErrorMsg::InvalidStringForIntFunction => prefixed_global("invalid_string_value_int_function"),
            RuntimeErrorMsg::PanicInvalidInternalTypeInTypeFunction => prefixed_global("panic_invalid_type_in_type_function"),
            RuntimeErrorMsg::LocalizeError => prefixed_global("localize_error"),
        }
    }

    /// The kind of error the message starts with.
    pub open spec fn label(self) -> Seq<char> {
        match self {
            RuntimeErrorMsg::PanicInvalidInternalTypeValueFormatString => "PANIC:"@,
            RuntimeErrorMsg::PanicNotImplemented => "PANIC:"@,
            RuntimeErrorMsg::PanicInvalidInternalTypeCompareGeneric => "PANIC:"@,
            RuntimeErrorMsg::PanicInvalidInternalTypeAddGeneric => "TypeError:"@,
            RuntimeErrorMsg::PanicGetlineError => "PANIC:"@,
            RuntimeErrorMsg::TypeError => "TypeError:"@,
            RuntimeErrorMsg::TypeErrorDyn => "TypeError:"@,
            RuntimeErrorMsg::CompareGreater => "TypeError:"@,
            RuntimeErrorMsg::CompareGreaterEq => "TypeError:"@,
            RuntimeErrorMsg::CompareLess => "TypeError:"@,
            RuntimeErrorMsg::CompareLessEq => "TypeError:"@,
            RuntimeErrorMsg::IndexOutOfBound => "IndexError:"@,
            RuntimeErrorMsg::InvalidTypeListFunction => "TypeError:"@,
            RuntimeErrorMsg::InvalidStringForIntFunction => "InvalidIntError:"@,
            RuntimeErrorMsg::PanicInvalidInternalTypeInTypeFunction => "PANIC:"@,
            RuntimeErrorMsg::LocalizeError => "At line :"@,
        }
    }

    /// What the message says after its label (`%d` and `%s` are filled at run time).
    pub open spec fn text(self) -> Seq<char> {
        match self {
            RuntimeErrorMsg::PanicInvalidInternalTypeValueFormatString => "Invalid internal type value %d"@,
            RuntimeErrorMsg::PanicNotImplemented => "Not implemented yet"@,
            RuntimeErrorMsg::PanicInvalidInternalTypeCompareGeneric => "Invalid internal type value for generic comparison"@,
            RuntimeErrorMsg::PanicInvalidInternalTypeAddGeneric => "unsupported operand type(s) for +: %s and %s"@,
            RuntimeErrorMsg::PanicGetlineError => "Could not read from standard input"@,
            RuntimeErrorMsg::TypeError => "%s but got %s"@,
            RuntimeErrorMsg::TypeErrorDyn => "%s %s (not %s) to %s"@,
            RuntimeErrorMsg::CompareGreater => "'>' not supported between instances of %s and %s"@,
            RuntimeErrorMsg::CompareGreaterEq => "'>=' not supported between instances of %s and %s"@,
            RuntimeErrorMsg::CompareLess => "'<' not supported between instances of %s and %s"@,
            RuntimeErrorMsg::CompareLessEq => "'<=' not supported between instances of %s and %s"@,
            RuntimeErrorMsg::IndexOutOfBound => "index %d out of bounds for list of length %d"@,
            RuntimeErrorMsg::InvalidTypeListFunction => "%s object is not iterable"@,
            RuntimeErrorMsg::InvalidStringForIntFunction => "Invalid string for int function"@,
            RuntimeErrorMsg::PanicInvalidInternalTypeInTypeFunction => "Invalid internal type value for type function (bitmask: %s)"@,
            RuntimeErrorMsg::LocalizeError => " %d:%d"@,
        }
    }

    /// The label and the text of the message (see `label` and `text`).
    pub fn parts(&self) -> (r: (&'static str, &'static str))
        ensures
            r.0@ == self.label(),
            r.1@ == self.text(),
    {
        match self {
            RuntimeErrorMsg::PanicInvalidInternalTypeValueFormatString => ("PANIC:", "Invalid internal type value %d"),
            RuntimeErrorMsg::PanicNotImplemented => ("PANIC:", "Not implemented yet"),
            RuntimeErrorMsg::PanicInvalidInternalTypeCompareGeneric => ("PANIC:", "Invalid internal type value for generic comparison"),
            RuntimeErrorMsg::PanicInvalidInternalTypeAddGeneric => ("TypeError:", "unsupported operand type(s) for +: %s and %s"),
            RuntimeErrorMsg::PanicGetlineError => ("PANIC:", "Could not read from standard input"),
            RuntimeErrorMsg::TypeError => ("TypeError:", "%s but got %s"),
            RuntimeErrorMsg::TypeErrorDyn => ("TypeError:", "%s %s (not %s) to %s"),
            RuntimeErrorMsg::CompareGreater => ("TypeError:", "'>' not supported between instances of %s and %s"),
            RuntimeErrorMsg::CompareGreaterEq => ("TypeError:", "'>=' not supported between instances of %s and %s"),
            RuntimeErrorMsg::CompareLess => ("TypeError:", "'<' not supported between instances of %s and %s"),
            RuntimeErrorMsg::CompareLessEq => ("TypeError:", "'<=' not supported between instances of %s and %s"),
            RuntimeErrorMsg::IndexOutOfBound => ("IndexError:", "index %d out of bounds for list of length %d"),
            RuntimeErrorMsg::InvalidTypeListFunction => ("TypeError:", "%s object is not iterable"),
            RuntimeErrorMsg::InvalidStringForIntFunction => ("InvalidIntError:", "Invalid string for int function"),
            RuntimeErrorMsg::PanicInvalidInternalTypeInTypeFunction => ("PANIC:", "Invalid internal type value for type function (bitmask: %s)"),
            RuntimeErrorMsg::LocalizeError => ("At line :", " %d:%d"),
        }
    }
}

/// The sequence that resets the terminal style.
pub open spec fn reset_sequence() -> Seq<char> {
    seq!['\x1b', '[', '0', 'm']
}

/// `s` between the style sequence with code `code` and the reset sequence.
pub open spec fn wrapped(s: Seq<char>, code: Seq<char>) -> Seq<char> {
    seq!['\x1b', '['] + code + seq!['m'] + s + reset_sequence()
}

/// The code of one of the sixteen basic foreground colours (`30` to `37`, `90` to `97`).
pub open spec fn basic_foreground(code: Seq<char>) -> bool {
    &&& code.len() == 2
    &&& (code[0] == '3' || code[0] == '9')
    &&& '0' <= code[1] <= '7'
}

/// The code of the 24-bit foreground colour (r, g, b): `38;2;r;g;b`.
pub open spec fn truecolor_foreground(r: u8, g: u8, b: u8) -> Seq<char> {
    seq!['3', '8', ';', '2', ';'] + decimal(r as nat) + seq![';'] + decimal(g as nat) + seq![';'] + decimal(b as nat)
}

/// `code` is how a terminal is told to use the colour (r, g, b): the 24-bit colour
/// itself, or, on terminals without 24-bit colours, one of the basic colours.
pub open spec fn foreground(code: Seq<char>, r: u8, g: u8, b: u8) -> bool {
    code == truecolor_foreground(r, g, b) || basic_foreground(code)
}

/// `p` is `s` in the colour (r, g, b), in bold when `bold`, as the terminal gets it:
/// `s` bare when colours are off, else `s` wrapped in the style sequence (`1;` for
/// bold, then the colour) and the reset sequence.
pub open spec fn painted(s: Seq<char>, p: Seq<char>, r: u8, g: u8, b: u8, bold: bool) -> bool {
    ||| p == s
    ||| exists|fg: Seq<char>|
        #[trigger] foreground(fg, r, g, b) && p == wrapped(s, if bold { seq!['1', ';'] + fg } else { fg })
}

/// `p` is `s` in bold as the terminal gets it: `s` bare when colours are off, else `s`
/// wrapped in the style sequence with code `1` and the reset sequence.
pub open spec fn emboldened(s: Seq<char>, p: Seq<char>) -> bool {
    p == s || p == wrapped(s, seq!['1'])
}

/// colored's `Colorize::truecolor` then `bold` on `s`, shown as text. When colours are
/// off (colored decides from the environment and the terminal) the text is `s` bare;
/// else it is `s` wrapped in the codes of bold and of the colour, the 24-bit colour
/// where the terminal announces it and one of the basic colours otherwise. Which basic
/// colour is left unsaid (colored picks the nearest one).
#[verifier::external_body]
fn paint_bold_truecolor(s: &str, r: u8, g: u8, b: u8) -> (p: String)
    requires
        !s@.contains('\x1b'),
    ensures
        painted(s@, p@, r, g, b, true),
{
    format!("{}", s.truecolor(r, g, b).bold())
}

/// colored's `Colorize::truecolor` on `s`, shown as text: as for
/// `paint_bold_truecolor`, without the code of bold.
#[verifier::external_body]
fn paint_truecolor(s: &str, r: u8, g: u8, b: u8) -> (p: String)
    requires
        !s@.contains('\x1b'),
    ensures
        painted(s@, p@, r, g, b, false),
{
    format!("{}", s.truecolor(r, g, b))
}

/// colored's `Colorize::bold` on `s`, shown as text: `s` bare when colours are off,
/// else `s` wrapped in the code of bold (`1`) and the reset sequence.
#[verifier::external_body]
fn paint_bold(s: &str) -> (p: String)
    requires
        !s@.contains('\x1b'),
    ensures
        emboldened(s@, p@),
{
    format!("{}", s.bold())
}

/// A runtime error message: the painted label, a space, the painted text, the reset
/// sequence and a line break.
pub open spec fn error_message_of(label: Seq<char>, text: Seq<char>) -> Seq<char> {
    label + seq![' '] + text + reset_sequence() + seq!['\n']
}

/// `m` is the message of `msg`: its label in bold and in `error_color`, its text in
/// `highlight_color` (the label of `LocalizeError` in bold only and its text bare), as
/// the terminal gets them.
pub open spec fn error_message(msg: RuntimeErrorMsg, error_color: (u8, u8, u8), highlight_color: (u8, u8, u8), m: Seq<char>) -> bool {
    if msg is LocalizeError {
        exists|l: Seq<char>| #[trigger] emboldened(msg.label(), l) && m == error_message_of(l, msg.text())
    } else {
        exists|l: Seq<char>, t: Seq<char>|
            #![trigger painted(msg.label(), l, error_color.0, error_color.1, error_color.2, true), painted(msg.text(), t, highlight_color.0, highlight_color.1, highlight_color.2, false)]
            painted(msg.label(), l, error_color.0, error_color.1, error_color.2, true)
                && painted(msg.text(), t, highlight_color.0, highlight_color.1, highlight_color.2, false)
                && m == error_message_of(l, t)
    }
}

/// No label or text of a runtime error message holds an escape character.
proof fn lemma_no_escape(msg: RuntimeErrorMsg)
    ensures
        !msg.label().contains('\x1b'),
        !msg.text().contains('\x1b'),
{
    match msg {
        RuntimeErrorMsg::PanicInvalidInternalTypeValueFormatString => {
            reveal_strlit("PANIC:");
            reveal_strlit("Invalid internal type value %d");
        },
        RuntimeErrorMsg::PanicNotImplemented => {
            reveal_strlit("PANIC:");
            reveal_strlit("Not implemented yet");
        },
        RuntimeErrorMsg::PanicInvalidInternalTypeCompareGeneric => {
            reveal_strlit("PANIC:");
            reveal_strlit("Invalid internal type value for generic comparison");
        },
        RuntimeErrorMsg::PanicInvalidInternalTypeAddGeneric => {
            reveal_strlit("TypeError:");
            reveal_strlit("unsupported operand type(s) for +: %s and %s");
        },
        RuntimeErrorMsg::PanicGetlineError => {
            reveal_strlit("PANIC:");
            reveal_strlit("Could not read from standard input");
        },
        RuntimeErrorMsg::TypeError => {
            reveal_strlit("TypeError:");
            reveal_strlit("%s but got %s");
        },
        RuntimeErrorMsg::TypeErrorDyn => {
            reveal_strlit("TypeError:");
            reveal_strlit("%s %s (not %s) to %s");
        },
        RuntimeErrorMsg::CompareGreater => {
            reveal_strlit("TypeError:");
            reveal_strlit("'>' not supported between instances of %s and %s");
        },
        RuntimeErrorMsg::CompareGreaterEq => {
            reveal_strlit("TypeError:");
            reveal_strlit("'>=' not supported between instances of %s and %s");
        },
        RuntimeErrorMsg::CompareLess => {
            reveal_strlit("TypeError:");
            reveal_strlit("'<' not supported between instances of %s and %s");
        },
        RuntimeErrorMsg::CompareLessEq => {
            reveal_strlit("TypeError:");
            reveal_strlit("'<=' not supported between instances of %s and %s");
        },
        RuntimeErrorMsg::IndexOutOfBound => {
            reveal_strlit("IndexError:");
            reveal_strlit("index %d out of bounds for list of length %d");
        },
        RuntimeErrorMsg::InvalidTypeListFunction => {
            reveal_strlit("TypeError:");
            reveal_strlit("%s object is not iterable");
        },
        RuntimeErrorMsg::InvalidStringForIntFunction => {
            reveal_strlit("InvalidIntError:");
            reveal_strlit("Invalid string for int function");
        },
        RuntimeErrorMsg::PanicInvalidInternalTypeInTypeFunction => {
            reveal_strlit("PANIC:");
            reveal_strlit("Invalid internal type value for type function (bitmask: %s)");
        },
        RuntimeErrorMsg::LocalizeError => {
            reveal_strlit("At line :");
            reveal_strlit(" %d:%d");
        },
    }
}

/// Joins a painted label and a painted text into a runtime error message.
pub fn compose_error_message(label: &str, text: &str) -> (m: String)
    ensures
        m@ == error_message_of(label@, text@),
{
    let mut v = chars_of(label);
    v.push(' ');
    let mut t = chars_of(text);
    v.append(&mut t);
    v.push('\x1b');
    v.push('[');
    v.push('0');
    v.push('m');
    v.push('\n');
    proof {
        assert(v@ =~= error_message_of(label@, text@));
    }
    string_of_chars(v.as_slice())
}

/// The runtime error message `msg` (see `error_message`), painted with the colours
/// `error_color` (labels) and `highlight_color` (texts).
pub fn runtime_error_message(msg: &RuntimeErrorMsg, error_color: (u8, u8, u8), highlight_color: (u8, u8, u8)) -> (m: String)
    ensures
        error_message(*msg, error_color, highlight_color, m@),
{
    let (label, text) = msg.parts();
    proof {
        lemma_no_escape(*msg);
    }
    match msg {
        RuntimeErrorMsg::LocalizeError => {
            let painted_label = paint_bold(label);
            compose_error_message(painted_label.as_str(), text)
        },
        _ => {
            let painted_label = paint_bold_truecolor(label, error_color.0, error_color.1, error_color.2);
            let painted_text = paint_truecolor(text, highlight_color.0, highlight_color.1, highlight_color.2);
            compose_error_message(painted_label.as_str(), painted_text.as_str())
        },
    }
}

/// The constant strings of a generated program, in the order they are created.
pub open spec fn global_consts_in_order() -> Seq<InternalGlobalConst> {
    seq![
        InternalGlobalConst::NoneString,
        InternalGlobalConst::TrueString,
        InternalGlobalConst::FalseString,
        InternalGlobalConst::ListOpeningStr,
        InternalGlobalConst::ListClosingStr,
        InternalGlobalConst::ListSeparatorStr,
        InternalGlobalConst::IntFormatString,
        InternalGlobalConst::RangeFormatString,
        InternalGlobalConst::LineReturn,
        InternalGlobalConst::IntType,
        InternalGlobalConst::StringType,
        InternalGlobalConst::BoolType,
        InternalGlobalConst::ListType,
        InternalGlobalConst::RangeType,
        InternalGlobalConst::NoneType,
        InternalGlobalConst::ExpectedTypeNone,
        InternalGlobalConst::ExpectedTypeInt,
        InternalGlobalConst::ExpectedTypeBool,
        InternalGlobalConst::ExpectedTypeString,
        InternalGlobalConst::ExpectedTypeList,
        InternalGlobalConst::ExpectedTypeRange,
        InternalGlobalConst::CanOnlyConcatenate,
    ]
}

/// The runtime error messages of a generated program, in the order they are created
/// (the message of a failed read is created twice).
pub open spec fn error_messages_in_order() -> Seq<RuntimeErrorMsg> {
    seq![
        RuntimeErrorMsg::PanicInvalidInternalTypeValueFormatString,
        RuntimeErrorMsg::PanicNotImplemented,
        RuntimeErrorMsg::PanicGetlineError,
        RuntimeErrorMsg::PanicGetlineError,
        RuntimeErrorMsg::TypeError,
        RuntimeErrorMsg::TypeErrorDyn,
        RuntimeErrorMsg::CompareGreater,
        RuntimeErrorMsg::CompareGreaterEq,
        RuntimeErrorMsg::CompareLess,
        RuntimeErrorMsg::CompareLessEq,
        RuntimeErrorMsg::IndexOutOfBound,
        RuntimeErrorMsg::PanicInvalidInternalTypeCompareGeneric,
        RuntimeErrorMsg::PanicInvalidInternalTypeAddGeneric,
        RuntimeErrorMsg::InvalidTypeListFunction,
        RuntimeErrorMsg::InvalidStringForIntFunction,
        RuntimeErrorMsg::PanicInvalidInternalTypeInTypeFunction,
        RuntimeErrorMsg::LocalizeError,
    ]
}

/// The constant strings of a generated program, in the order they are created.
pub fn global_consts_order() -> (v: Vec<InternalGlobalConst>)
    ensures
        v@ == global_consts_in_order(),
{
    let mut v: Vec<InternalGlobalConst> = Vec::new();
    v.push(InternalGlobalConst::NoneString);
    v.push(InternalGlobalConst::TrueString);
    v.push(InternalGlobalConst::FalseString);
    v.push(InternalGlobalConst::ListOpeningStr);
    v.push(InternalGlobalConst::ListClosingStr);
    v.push(InternalGlobalConst::ListSeparatorStr);
    v.push(InternalGlobalConst::IntFormatString);
    v.push(InternalGlobalConst::RangeFormatString);
    v.push(InternalGlobalConst::LineReturn);
    v.push(InternalGlobalConst::IntType);
    v.push(InternalGlobalConst::StringType);
    v.push(InternalGlobalConst::BoolType);
    v.push(InternalGlobalConst::ListType);
    v.push(InternalGlobalConst::RangeType);
    v.push(InternalGlobalConst::NoneType);
    v.push(InternalGlobalConst::ExpectedTypeNone);
    v.push(InternalGlobalConst::ExpectedTypeInt);
    v.push(InternalGlobalConst::ExpectedTypeBool);
    v.push(InternalGlobalConst::ExpectedTypeString);
    v.push(InternalGlobalConst::ExpectedTypeList);
    v.push(InternalGlobalConst::ExpectedTypeRange);
    v.push(InternalGlobalConst::CanOnlyConcatenate);
    assert(v@ =~= global_consts_in_order());
    v
}

/// The runtime error messages of a generated program, in the order they are created.
pub fn error_messages_order() -> (v: Vec<RuntimeErrorMsg>)
    ensures
        v@ == error_messages_in_order(),
{
    let mut v: Vec<RuntimeErrorMsg> = Vec::new();
    v.push(RuntimeErrorMsg::PanicInvalidInternalTypeValueFormatString);
    v.push(RuntimeErrorMsg::PanicNotImplemented);
    v.push(RuntimeErrorMsg::PanicGetlineError);
    v.push(RuntimeErrorMsg::PanicGetlineError);
    v.push(RuntimeErrorMsg::TypeError);
    v.push(RuntimeErrorMsg::TypeErrorDyn);
    v.push(RuntimeErrorMsg::CompareGreater);
    v.push(RuntimeErrorMsg::CompareGreaterEq);
    v.push(RuntimeErrorMsg::CompareLess);
    v.push(RuntimeErrorMsg::CompareLessEq);
    v.push(RuntimeErrorMsg::IndexOutOfBound);
    v.push(RuntimeErrorMsg::PanicInvalidInternalTypeCompareGeneric);
    v.push(RuntimeErrorMsg::PanicInvalidInternalTypeAddGeneric);
    v.push(RuntimeErrorMsg::InvalidTypeListFunction);
    v.push(RuntimeErrorMsg::InvalidStringForIntFunction);
    v.push(RuntimeErrorMsg::PanicInvalidInternalTypeInTypeFunction);
    v.push(RuntimeErrorMsg::LocalizeError);
    assert(v@ =~= error_messages_in_order());
    v
}

/// A global string of a generated program: its name and the text it holds.
pub struct GlobalString {
    pub name: String,
    pub value: String,
}

/// The global strings that every generated program starts with, in the order they are
/// created: the constant strings, then the runtime error messages painted with the
/// colours `error_color` and `highlight_color`.
pub fn internal_global_strings(error_color: (u8, u8, u8), highlight_color: (u8, u8, u8)) -> (v: Vec<GlobalString>)
    ensures
        v@.len() == global_consts_in_order().len() + error_messages_in_order().len(),
        forall|i: int|
            0 <= i < global_consts_in_order().len() ==> {
                &&& (#[trigger] v@[i]).name@ == global_prefix() + global_consts_in_order()[i].suffix()
                &&& v@[i].value@ == global_consts_in_order()[i].value()
            },
        forall|i: int|
            0 <= i < error_messages_in_order().len() ==> {
                let g = #[trigger] v@[global_consts_in_order().len() + i];
                &&& g.name@ == global_prefix() + error_messages_in_order()[i].suffix()
                &&& error_message(error_messages_in_order()[i], error_color, highlight_color, g.value@)
            },
{
    let consts = global_consts_order();
    let msgs = error_messages_order();
    let mut v: Vec<GlobalString> = Vec::new();
    let mut i: usize = 0;
    while i < consts.len()
        invariant
            i <= consts@.len(),
            consts@ == global_consts_in_order(),
            v@.len() == i,
            forall|k: int|
                0 <= k < i ==> {
                    &&& (#[trigger] v@[k]).name@ == global_prefix() + consts@[k].suffix()
                    &&& v@[k].value@ == consts@[k].value()
                },
        decreases consts@.len() - i,
    {
        let c = consts[i];
        let value = string_of_chars(chars_of(c.get_value()).as_slice());
        v.push(GlobalString { name: c.name(), value });
        i = i + 1;
    }
    let n = consts.len();
    let mut j: usize = 0;
    while j < msgs.len()
        invariant
            j <= msgs@.len(),
            n == consts@.len(),
            consts@ == global_consts_in_order(),
            msgs@ == error_messages_in_order(),
            v@.len() == n + j,
            forall|k: int|
                0 <= k < n ==> {
                    &&& (#[trigger] v@[k]).name@ == global_prefix() + consts@[k].suffix()
                    &&& v@[k].value@ == consts@[k].value()
                },
            forall|k: int|
                0 <= k < j ==> {
                    let g = #[trigger] v@[n + k];
                    &&& g.name@ == global_prefix() + msgs@[k].suffix()
                    &&& error_message(msgs@[k], error_color, highlight_color, g.value@)
                },
        decreases msgs@.len() - j,
    {
        let m = msgs[j];
        let value = runtime_error_message(&m, error_color, highlight_color);
        v.push(GlobalString { name: m.name(), value });
        proof {
            assert(v@[n + j as int].value@ == value@);
        }
        j = j + 1;
    }
    v
}

/// A few characters of a name (its length, and its characters at positions 0, 6 and
/// 14, a space standing for a missing one): enough to tell the global names apart.
pub open spec fn name_key(s: Seq<char>) -> (nat, char, char, char) {
    (
        s.len(),
        if 0 < s.len() { s[0] } else { ' ' },
        if 6 < s.len() { s[6] } else { ' ' },
        if 14 < s.len() { s[14] } else { ' ' },
    )
}

/// The key of the name of each constant string.
pub open spec fn const_key(c: InternalGlobalConst) -> (nat, char, char, char) {
    match c {
        InternalGlobalConst::NoneString => (11, 'n', 't', ' '),
        InternalGlobalConst::TrueString => (11, 't', 't', ' '),
        InternalGlobalConst::FalseString => (12, 'f', 's', ' '),
        InternalGlobalConst::ListOpeningStr => (22, 'l', 'p', 'e'),
        InternalGlobalConst::ListClosingStr => (23, 'l', 'l', 'c'),
        InternalGlobalConst::ListSeparatorStr => (21, 'l', 'e', '_'),
        InternalGlobalConst::IntFormatString => (14, 'i', 't', ' '),
        InternalGlobalConst::RangeFormatString => (16, 'r', 'f', 'n'),
        InternalGlobalConst::LineReturn => (11, 'l', 'e', ' '),
        InternalGlobalConst::IntType => (8, 'i', 'p', ' '),
        InternalGlobalConst::StringType => (11, 's', '_', ' '),
        InternalGlobalConst::BoolType => (9, 'b', 'y', ' '),
        InternalGlobalConst::ListType => (9, 'l', 'y', ' '),
        InternalGlobalConst::RangeType => (10, 'r', 't', ' '),
        InternalGlobalConst::NoneType => (9, 'n', 'y', ' '),
        InternalGlobalConst::ExpectedTypeNone => (18, 'e', 'e', 'n'),
        InternalGlobalConst::ExpectedTypeInt => (17, 'e', 'e', 'i'),
        InternalGlobalConst::ExpectedTypeBool => (18, 'e', 'e', 'b'),
        InternalGlobalConst::ExpectedTypeString => (20, 'e', 'e', 's'),
        InternalGlobalConst::ExpectedTypeList => (18, 'e', 'e', 'l'),
        InternalGlobalConst::ExpectedTypeRange => (19, 'e', 'e', 'r'),
        InternalGlobalConst::CanOnlyConcatenate => (20, 'c', 'l', 't'),
    }
}

/// The key of the name of each runtime error message.
pub open spec fn message_key(m: RuntimeErrorMsg) -> (nat, char, char, char) {
    match m {
        RuntimeErrorMsg::PanicInvalidInternalTypeValueFormatString => (29, 'p', 'i', 't'),
        RuntimeErrorMsg::PanicNotImplemented => (19, 'p', 'u', 'e'),
        RuntimeErrorMsg::PanicInvalidInternalTypeCompareGeneric => (34, 'p', 'i', 't'),
        RuntimeErrorMsg::PanicInvalidInternalTypeAddGeneric => (30, 'p', 'i', 't'),
        RuntimeErrorMsg::PanicGetlineError => (19, 'p', 'g', 'e'),
        RuntimeErrorMsg::TypeError => (10, 'e', 't', ' '),
        RuntimeErrorMsg::TypeErrorDyn => (14, 'e', 't', ' '),
        RuntimeErrorMsg::CompareGreater => (15, 'c', 'e', 'r'),
        RuntimeErrorMsg::CompareGreaterEq => (18, 'c', 'e', 'r'),
        RuntimeErrorMsg::CompareLess => (12, 'c', 'e', ' '),
        RuntimeErrorMsg::CompareLessEq => (15, 'c', 'e', 'q'),
        RuntimeErrorMsg::IndexOutOfBound => (18, 'e', 'o', 'o'),
        RuntimeErrorMsg::InvalidTypeListFunction => (26, 'i', 'd', 'i'),
        RuntimeErrorMsg::InvalidStringForIntFunction => (33, 'i', 'd', '_'),
        RuntimeErrorMsg::PanicInvalidInternalTypeInTypeFunction => (35, 'p', 'i', 't'),
        RuntimeErrorMsg::LocalizeError => (14, 'l', 'z', ' '),
    }
}

proof fn lemma_const_key(c: InternalGlobalConst)
    ensures
        name_key(c.suffix()) == const_key(c),
{
    match c {
        InternalGlobalConst::NoneString => {
            reveal_strlit("none_string");
        },
        InternalGlobalConst::TrueString => {
            reveal_strlit("true_string");
        },
        InternalGlobalConst::FalseString => {
            reveal_strlit("false_string");
        },
        InternalGlobalConst::ListOpeningStr => {
            reveal_strlit("list_open_brace_string");
        },
        InternalGlobalConst::ListClosingStr => {
            reveal_strlit("list_close_brace_string");
        },
        InternalGlobalConst::ListSeparatorStr => {
            reveal_strlit("list_separator_string");
        },
        InternalGlobalConst::IntFormatString => {
            reveal_strlit("int_fmt_string");
        },
        InternalGlobalConst::RangeFormatString => {
            reveal_strlit("range_fmt_string");
        },
        InternalGlobalConst::LineReturn => {
            reveal_strlit("line_return");
        },
        InternalGlobalConst::IntType => {
            reveal_strlit("int_type");
        },
        InternalGlobalConst::StringType => {
            reveal_strlit("string_type");
        },
        InternalGlobalConst::BoolType => {
            reveal_strlit("bool_type");
        },
        InternalGlobalConst::ListType => {
            reveal_strlit("list_type");
        },
        InternalGlobalConst::RangeType => {
            reveal_strlit("range_type");
        },
        InternalGlobalConst::NoneType => {
            reveal_strlit("none_type");
        },
        InternalGlobalConst::ExpectedTypeNone => {
            reveal_strlit("expected_type_none");
        },
        InternalGlobalConst::ExpectedTypeInt => {
            reveal_strlit("expected_type_int");
        },
        InternalGlobalConst::ExpectedTypeBool => {
            reveal_strlit("expected_type_bool");
        },
        InternalGlobalConst::ExpectedTypeString => {
            reveal_strlit("expected_type_string");
        },
        InternalGlobalConst::ExpectedTypeList => {
            reveal_strlit("expected_type_list");
        },
        InternalGlobalConst::ExpectedTypeRange => {
            reveal_strlit("expected_type_range");
        },
        InternalGlobalConst::CanOnlyConcatenate => {
            reveal_strlit("can_only_concatenate");
        },
    }
}

proof fn lemma_message_key(m: RuntimeErrorMsg)
    ensures
        name_key(m.suffix()) == message_key(m),
{
    match m {
        RuntimeErrorMsg::PanicInvalidInternalTypeValueFormatString => {
            reveal_strlit("panic_invalid_type_fmt_string");
        },
        RuntimeErrorMsg::PanicNotImplemented => {
            reveal_strlit("panic_unimplemented");
        },
        RuntimeErrorMsg::PanicInvalidInternalTypeCompareGeneric => {
            reveal_strlit("panic_invalid_type_compare_generic");
        },
        RuntimeErrorMsg::PanicInvalidInternalTypeAddGeneric => {
            reveal_strlit("panic_invalid_type_add_generic");
        },
        RuntimeErrorMsg::PanicGetlineError => {
            reveal_strlit("panic_getline_error");
        },
        RuntimeErrorMsg::TypeError => {
            reveal_strlit("error_type");
        },
        RuntimeErrorMsg::TypeErrorDyn => {
            reveal_strlit("error_type_dyn");
        },
        RuntimeErrorMsg::CompareGreater => {
            reveal_strlit("compare_greater");
        },
        RuntimeErrorMsg::CompareGreaterEq => {
            reveal_strlit("compare_greater_eq");
        },
        RuntimeErrorMsg::CompareLess => {
            reveal_strlit("compare_less");
        },
        RuntimeErrorMsg::CompareLessEq => {
            reveal_strlit("compare_less_eq");
        },
        RuntimeErrorMsg::IndexOutOfBound => {
            reveal_strlit("error_out_of_bound");
        },
        RuntimeErrorMsg::InvalidTypeListFunction => {
            reveal_strlit("invalid_type_list_function");
        },
        RuntimeErrorMsg::InvalidStringForIntFunction => {
            reveal_strlit("invalid_string_value_int_function");
        },
        RuntimeErrorMsg::PanicInvalidInternalTypeInTypeFunction => {
            reveal_strlit("panic_invalid_type_in_type_function");
        },
        RuntimeErrorMsg::LocalizeError => {
            reveal_strlit("localize_error");
        },
    }
}

/// The globals of a generated program have distinct names: two different constant
/// strings, two different runtime error messages, or a constant string and a runtime
/// error message never share a name.
pub proof fn lemma_global_names_distinct(c1: InternalGlobalConst, c2: InternalGlobalConst, m1: RuntimeErrorMsg, m2: RuntimeErrorMsg)
    ensures
        c1 != c2 ==> c1.suffix() != c2.suffix(),
        m1 != m2 ==> m1.suffix() != m2.suffix(),
        c1.suffix() != m1.suffix(),
{
    lemma_const_key(c1);
    lemma_const_key(c2);
    lemma_message_key(m1);
    lemma_message_key(m2);
}

/// The length and the first character of the name of each internal function.
pub open spec fn function_key(f: InternalFuctions) -> (nat, char) {
    match f {
        InternalFuctions::Main => (4, 'm'),
        InternalFuctions::GenericPrint => (24, '_'),
        InternalFuctions::GenericCompareEQ => (28, '_'),
        InternalFuctions::GenericCompareNEQ => (29, '_'),
        InternalFuctions::GenericCompareLESS => (30, '_'),
        InternalFuctions::GenericCompareLESSEQ => (32, '_'),
        InternalFuctions::GenericCompareGREATER => (33, '_'),
        InternalFuctions::GenericCompareGREATEREQ => (35, '_'),
        InternalFuctions::ListCmp => (19, '_'),
        InternalFuctions::StrCmp => (18, '_'),
        InternalFuctions::BoolCast => (20, '_'),
        InternalFuctions::GenericAdd => (22, '_'),
        InternalFuctions::Trap => (14, 'l'),
        InternalFuctions::Puts => (4, 'p'),
        InternalFuctions::Printf => (6, 'p'),
    }
}

proof fn lemma_function_key(f: InternalFuctions)
    ensures
        f.symbol().len() == function_key(f).0,
        f.symbol()[0] == function_key(f).1,
{
    match f {
        InternalFuctions::Main => {
            reveal_strlit("main");
        },
        InternalFuctions::GenericPrint => {
            reveal_strlit("__smolpp_f_");
            reveal_strlit("generic_print");
        },
        InternalFuctions::GenericCompareEQ => {
            reveal_strlit("__smolpp_f_");
            reveal_strlit("generic_compareEQ");
        },
        InternalFuctions::GenericCompareNEQ => {
            reveal_strlit("__smolpp_f_");
            reveal_strlit("generic_compareNEQ");
        },
        InternalFuctions::GenericCompareLESS => {
            reveal_strlit("__smolpp_f_");
            reveal_strlit("generic_compareLESS");
        },
        InternalFuctions::GenericCompareLESSEQ => {
            reveal_strlit("__smolpp_f_");
            reveal_strlit("generic_compareLESSEQ");
        },
        InternalFuctions::GenericCompareGREATER => {
            reveal_strlit("__smolpp_f_");
            reveal_strlit("generic_compareGREATER");
        },
        InternalFuctions::GenericCompareGREATEREQ => {
            reveal_strlit("__smolpp_f_");
            reveal_strlit("generic_compareGREATEREQ");
        },
        InternalFuctions::ListCmp => {
            reveal_strlit("__smolpp_f_");
            reveal_strlit("list_cmp");
        },
        InternalFuctions::StrCmp => {
            reveal_strlit("__smolpp_f_");
            reveal_strlit("str_cmp");
        },
        InternalFuctions::BoolCast => {
            reveal_strlit("__smolpp_f_");
            reveal_strlit("bool_cast");
        },
        InternalFuctions::GenericAdd => {
            reveal_strlit("__smolpp_f_");
            reveal_strlit("generic_add");
        },
        InternalFuctions::Trap => {
            reveal_strlit("llvm.debugtrap");
        },
        InternalFuctions::Puts => {
            reveal_strlit("puts");
        },
        InternalFuctions::Printf => {
            reveal_strlit("printf");
        },
    }
}

/// Two different internal functions have different names.
pub proof fn lemma_function_names_distinct(f1: InternalFuctions, f2: InternalFuctions)
    requires
        f1 != f2,
    ensures
        f1.symbol() != f2.symbol(),
{
    lemma_function_key(f1);
    lemma_function_key(f2);
}

/// The runtime helpers, and only they among the internal functions, have names that
/// begin with `__smolpp_f_`.
pub proof fn lemma_helper_prefix(f: InternalFuctions)
    ensures
        f.is_helper() <==> (function_prefix().len() <= f.symbol().len() && f.symbol().take(function_prefix().len() as int) == function_prefix()),
{
    reveal_strlit("__smolpp_f_");
    lemma_function_key(f);
    if f.is_helper() {
        assert(f.symbol().take(function_prefix().len() as int) =~= function_prefix());
    } else {
        if function_prefix().len() <= f.symbol().len() && f.symbol().take(function_prefix().len() as int) == function_prefix() {
            assert(f.symbol().take(function_prefix().len() as int)[0] == f.symbol()[0]);
        }
    }
}

/// A generated program prints the values `True`, `False` and `None` as the language
/// spells its literals, and names the type of `None` the same way.
pub proof fn lemma_printed_literals()
    ensures
        InternalGlobalConst::TrueString.value() == Token::True.grammar_name(),
        InternalGlobalConst::FalseString.value() == Token::False.grammar_name(),
        InternalGlobalConst::NoneString.value() == Token::NoneLiteral.grammar_name(),
        InternalGlobalConst::NoneType.value() == Token::NoneLiteral.grammar_name(),
{
}

/// Each "expected type" message is `Expected type ` followed by the name of the type.
pub proof fn lemma_expected_type_messages()
    ensures
        InternalGlobalConst::ExpectedTypeNone.value() == "Expected type "@ + InternalGlobalConst::NoneType.value(),
        InternalGlobalConst::ExpectedTypeInt.value() == "Expected type "@ + InternalGlobalConst::IntType.value(),
        InternalGlobalConst::ExpectedTypeBool.value() == "Expected type "@ + InternalGlobalConst::BoolType.value(),
        InternalGlobalConst::ExpectedTypeString.value() == "Expected type "@ + InternalGlobalConst::StringType.value(),
        InternalGlobalConst::ExpectedTypeList.value() == "Expected type "@ + InternalGlobalConst::ListType.value(),
        InternalGlobalConst::ExpectedTypeRange.value() == "Expected type "@ + InternalGlobalConst::RangeType.value(),
{
    reveal_strlit("Expected type ");
    reveal_strlit("None");
    reveal_strlit("Int");
    reveal_strlit("Bool");
    reveal_strlit("String");
    reveal_strlit("List");
    reveal_strlit("Range");
    reveal_strlit("Expected type None");
    reveal_strlit("Expected type Int");
    reveal_strlit("Expected type Bool");
    reveal_strlit("Expected type String");
    reveal_strlit("Expected type List");
    reveal_strlit("Expected type Range");
    assert(InternalGlobalConst::ExpectedTypeNone.value() =~= "Expected type "@ + InternalGlobalConst::NoneType.value());
    assert(InternalGlobalConst::ExpectedTypeInt.value() =~= "Expected type "@ + InternalGlobalConst::IntType.value());
    assert(InternalGlobalConst::ExpectedTypeBool.value() =~= "Expected type "@ + InternalGlobalConst::BoolType.value());
    assert(InternalGlobalConst::ExpectedTypeString.value() =~= "Expected type "@ + InternalGlobalConst::StringType.value());
    assert(InternalGlobalConst::ExpectedTypeList.value() =~= "Expected type "@ + InternalGlobalConst::ListType.value());
    assert(InternalGlobalConst::ExpectedTypeRange.value() =~= "Expected type "@ + InternalGlobalConst::RangeType.value());
}

} // verus!
