//! The development override: a port given by the environment, which spares
//! the sidecar.
use vstd::prelude::*;

use crate::port_state::{after_resolve, BackendPort};
use crate::port_text::{
    all_digits, all_white_space, decimal_text, is_digit, lemma_decimal_text, lemma_trimmed_pad, parse_port,
    port_number, trim_white_space, trimmed, unsigned_digits,
};

verus! {

/// The name of the environment variable that holds the override.
pub const PORT_OVERRIDE_VAR: &'static str = "PAGENODE_BACKEND_PORT";

/// The logical name of the backend sidecar executable.
pub const SIDECAR_NAME: &'static str = "pagenode-backend";

/// The port that an override value gives: its trimmed text read as a port
/// number. An absent or malformed value gives none.
pub open spec fn override_port(value: Option<Seq<char>>) -> Option<u16> {
    match value {
        Some(s) => port_number(trimmed(s)),
        None => None,
    }
}

/// The characters of an optional string.
pub open spec fn text_of(value: Option<&str>) -> Option<Seq<char>> {
    match value {
        Some(s) => Some(s@),
        None => None,
    }
}

/// Applies the override `value` (the variable's contents, if set). Where it
/// gives a port, that port goes into `port` and the result is `true`: the
/// sidecar is not to be started. Otherwise `port` is untouched and the
/// result is `false`.
pub fn resolve_override(port: &mut BackendPort, value: Option<&str>) -> (skip_sidecar: bool)
    ensures
        skip_sidecar == override_port(text_of(value)) is Some,
        final(port)@ == match override_port(text_of(value)) {
            Some(p) => after_resolve(old(port)@, p),
            None => old(port)@,
        },
{
    match value {
        Some(s) => match parse_port(trim_white_space(s)) {
            Some(p) => {
                port.resolve(p);
                true
            },
            None => false,
        },
        None => false,
    }
}

/// A port written in decimal, with any whitespace around it, is taken as the
/// override: the cell gets exactly that port and the sidecar is skipped.
pub proof fn lemma_valid_override(pad_before: Seq<char>, n: u16, pad_after: Seq<char>)
    requires
        all_white_space(pad_before),
        all_white_space(pad_after),
    ensures
        override_port(Some(pad_before + decimal_text(n as nat) + pad_after)) == Some(n),
{
    lemma_decimal_text(n as nat);
    lemma_trimmed_pad(pad_before, decimal_text(n as nat), pad_after);
}

/// A number above 65535, written in decimal with any whitespace around it,
/// is no override: the sidecar is started.
pub proof fn lemma_override_out_of_range(pad_before: Seq<char>, n: nat, pad_after: Seq<char>)
    requires
        all_white_space(pad_before),
        all_white_space(pad_after),
        n > 65535,
    ensures
        override_port(Some(pad_before + decimal_text(n) + pad_after)) is None,
{
    lemma_decimal_text(n);
    lemma_trimmed_pad(pad_before, decimal_text(n), pad_after);
}

/// A value with no digit in its trimmed text is no override: the sidecar is
/// started.
pub proof fn lemma_override_non_numeric(value: Seq<char>)
    requires
        forall|i: int| 0 <= i < trimmed(value).len() ==> !is_digit(#[trigger] trimmed(value)[i]),
    ensures
        override_port(Some(value)) is None,
{
    let t = trimmed(value);
    let d = unsigned_digits(t);
    if d.len() > 0 && all_digits(d) {
        assert(is_digit(d[0]));
        if t.len() > 0 && t[0] == '+' {
            assert(d[0] == t[1]);
        } else {
            assert(d[0] == t[0]);
        }
    }
}

} // verus!
