//! The store's outcome messages, and the exact text each one renders to.

use vstd::prelude::*;

verus! {

/// The outcome of a store operation, as reported to the client.
#[derive(Debug)]
pub enum SmirkMessages {
    /// A key was set: the key, the stored kind's name, and the tag the
    /// client named.
    SetKey(String, String, String),
    /// The key was not in the store.
    KeyNotFound(String),
    /// The key holds a value of another kind than the one requested: the
    /// key and the requested kind's name.
    TypeMismatch(String, String),
    /// The input could not be parsed as the requested kind: the key, the
    /// input text, and the requested kind's name.
    ParseError(String, String, String),
    /// Checked numeric accumulation exceeded the target width.
    AddOverflowError,
}

/// The text of a set acknowledgment.
pub open spec fn set_key_msg(key: Seq<char>, stored: Seq<char>, desired: Seq<char>) -> Seq<char> {
    "Set key \""@ + key + "\" successfully. Stored-Type: "@ + stored + ", User-Type: "@ + desired
        + "\n"@
}

/// The text of a key-not-found report.
pub open spec fn key_not_found_msg(key: Seq<char>) -> Seq<char> {
    "Key \""@ + key + "\" not found.\n"@
}

/// The text of a type-mismatch report.
pub open spec fn type_mismatch_msg(key: Seq<char>, desired: Seq<char>) -> Seq<char> {
    "Couldn't downcast the value stored in key \""@ + key + "\" to type \""@ + desired + "\".\n"@
}

/// The text of a parse-failure report.
pub open spec fn parse_error_msg(key: Seq<char>, value: Seq<char>, desired: Seq<char>) -> Seq<char> {
    "Setting key \""@ + key + "\" failed. Could not parse \""@ + value + "\" into \""@ + desired
        + "\".\n"@
}

/// The text of an overflow report.
pub open spec fn add_overflow_msg() -> Seq<char> {
    "Addition overflowed.\n"@
}

/// The text a message renders to.
pub open spec fn message_text(m: SmirkMessages) -> Seq<char> {
    match m {
        SmirkMessages::SetKey(k, s, d) => set_key_msg(k@, s@, d@),
        SmirkMessages::KeyNotFound(k) => key_not_found_msg(k@),
        SmirkMessages::TypeMismatch(k, d) => type_mismatch_msg(k@, d@),
        SmirkMessages::ParseError(k, v, d) => parse_error_msg(k@, v@, d@),
        SmirkMessages::AddOverflowError => add_overflow_msg(),
    }
}

impl SmirkMessages {
    /// Renders the message to its exact client-visible text.
    pub fn to_string(&self) -> (r: String)
        ensures
            r@ == message_text(*self),
    {
        match self {
            SmirkMessages::SetKey(k, s, d) => {
                let mut out = String::from_str("Set key \"");
                out.append(k.as_str());
                out.append("\" successfully. Stored-Type: ");
                out.append(s.as_str());
                out.append(", User-Type: ");
                out.append(d.as_str());
                out.append("\n");
                proof {
                    assert(out@ =~= message_text(*self));
                }
                out
            },
            SmirkMessages::KeyNotFound(k) => {
                let mut out = String::from_str("Key \"");
                out.append(k.as_str());
                out.append("\" not found.\n");
                proof {
                    assert(out@ =~= message_text(*self));
                }
                out
            },
            SmirkMessages::TypeMismatch(k, d) => {
                let mut out = String::from_str("Couldn't downcast the value stored in key \"");
                out.append(k.as_str());
                out.append("\" to type \"");
                out.append(d.as_str());
                out.append("\".\n");
                proof {
                    assert(out@ =~= message_text(*self));
                }
                out
            },
            SmirkMessages::ParseError(k, v, d) => {
                let mut out = String::from_str("Setting key \"");
                out.append(k.as_str());
                out.append("\" failed. Could not parse \"");
                out.append(v.as_str());
                out.append("\" into \"");
                out.append(d.as_str());
                out.append("\".\n");
                proof {
                    assert(out@ =~= message_text(*self));
                }
                out
            },
            SmirkMessages::AddOverflowError => String::from_str("Addition overflowed.\n"),
        }
    }
}

} // verus!
