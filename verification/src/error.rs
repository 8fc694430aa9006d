//! The errors of the Modbus stack.

pub mod exception;

use vstd::prelude::*;
use vstd::string::*;
use crate::framing::FramingError;
use crate::text::{fixed_digits, push_fixed};

verus! {

/// Errors that can occur at any layer of the Modbus stack. An I/O error is held by
/// its text.
#[derive(Debug)]
pub enum ModbusError {
    Framing(FramingError),
    Exception(u8),
    Io(String),
    Other(String),
}

/// What an error says.
pub enum ErrorModel {
    Framing(FramingError),
    Exception(u8),
    Io(Seq<char>),
    Other(Seq<char>),
}

impl View for ModbusError {
    type V = ErrorModel;

    open spec fn view(&self) -> ErrorModel {
        match self {
            ModbusError::Framing(e) => ErrorModel::Framing(*e),
            ModbusError::Exception(c) => ErrorModel::Exception(*c),
            ModbusError::Io(s) => ErrorModel::Io(s@),
            ModbusError::Other(s) => ErrorModel::Other(s@),
        }
    }
}

impl ErrorModel {
    /// The error in words: for an exception its code in hexadecimal, its name and,
    /// where there is one, its explanation.
    pub open spec fn text(self) -> Seq<char> {
        match self {
            ErrorModel::Framing(e) => "framing error: "@ + e.text(),
            ErrorModel::Exception(c) => {
                let head = "modbus exception: 0x"@ + fixed_digits(c as nat, 16, 2, true) + " · "@
                    + exception::zh_name_text(c);
                match exception::description_text(c) {
                    Some(d) => head + " — "@ + d,
                    None => head,
                }
            },
            ErrorModel::Io(s) => "io error: "@ + s,
            ErrorModel::Other(s) => s,
        }
    }
}

/// An error that is told by a fixed text.
pub(crate) fn other(text: &str) -> (r: ModbusError)
    ensures
        r@ == ErrorModel::Other(text@),
{
    ModbusError::Other(text.to_owned())
}

impl ModbusError {
    /// The error in words.
    pub fn message(&self) -> (r: String)
        ensures
            r@ == self@.text(),
    {
        let mut out = String::new();
        match self {
            ModbusError::Framing(e) => {
                out.append("framing error: ");
                out.append(e.message());
                assert(out@ =~= "framing error: "@ + e.text());
            },
            ModbusError::Exception(c) => {
                out.append("modbus exception: 0x");
                push_fixed(&mut out, *c as u64, 16, 2, true);
                out.append(" · ");
                out.append(exception::zh_name(*c));
                assert(out@ =~= "modbus exception: 0x"@ + fixed_digits(*c as nat, 16, 2, true)
                    + " · "@ + exception::zh_name_text(*c));
                match exception::description(*c) {
                    Some(d) => {
                        out.append(" — ");
                        out.append(d);
                    },
                    None => {},
                }
            },
            ModbusError::Io(s) => {
                out.append("io error: ");
                out.append(s.as_str());
                assert(out@ =~= "io error: "@ + s@);
            },
            ModbusError::Other(s) => {
                out.append(s.as_str());
                assert(out@ =~= s@);
            },
        }
        out
    }
}

impl From<FramingError> for ModbusError {
    fn from(e: FramingError) -> (r: Self) {
        ModbusError::Framing(e)
    }
}

impl vstd::std_specs::convert::FromSpecImpl<FramingError> for ModbusError {
    open spec fn obeys_from_spec() -> bool {
        true
    }

    open spec fn from_spec(e: FramingError) -> Self {
        ModbusError::Framing(e)
    }
}

/// What an error says in words: a framing or I/O error its text behind what it is, a refusal
/// its code in two hexadecimal digits and its name, and its explanation where it has one.
pub proof fn law_error_texts(e: FramingError, code: u8, text: Seq<char>)
    ensures
        ErrorModel::Other(text).text() == text,
        ErrorModel::Io(text).text() == "io error: "@ + text,
        ErrorModel::Framing(e).text() == "framing error: "@ + e.text(),
        exception::description_text(code) is None ==> ErrorModel::Exception(code).text()
            == "modbus exception: 0x"@ + fixed_digits(code as nat, 16, 2, true) + " · "@
            + exception::zh_name_text(code),
        exception::description_text(code) matches Some(d) ==> ErrorModel::Exception(code).text()
            == "modbus exception: 0x"@ + fixed_digits(code as nat, 16, 2, true) + " · "@
            + exception::zh_name_text(code) + " — "@ + d,
        e is InvalidCrc ==> e.text() == "Invalid CRC"@,
        e is IncompleteFrame ==> e.text() == "Incomplete frame"@,
        e is InvalidMbap ==> e.text() == "Invalid MBAP Header"@,
{
}

} // verus!
