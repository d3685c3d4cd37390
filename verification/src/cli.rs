//! Command line values that need no outside crate to interpret.
use vstd::prelude::*;

verus! {

/// The shells for which completion scripts can be generated.
#[derive(Clone, Copy, Debug, PartialEq, Eq)]
pub enum ShellArg {
    Bash,
    Zsh,
    Fish,
    PowerShell,
    Elvish,
}

/// What `{:?}` makes of a string, as `<str as core::fmt::Debug>::fmt` writes it:
/// the string between double quotes, with double quotes, backslashes and
/// characters that do not print escaped.
pub uninterp spec fn debug_quoted(s: Seq<char>) -> Seq<char>;

/// Formats `s` with `<str as core::fmt::Debug>::fmt` (through `format!`). The
/// contract claims only that the result is a function of `s` alone, named
/// `debug_quoted`; the escaping rules themselves are std's and are not stated.
#[verifier::external_body]
fn debug_quote(s: &str) -> (r: String)
    ensures
        r@ == debug_quoted(s@),
{
    format!("{s:?}")
}

/// The message with which a start value without `=` is refused.
pub open spec fn start_value_error(s: Seq<char>) -> Seq<char> {
    "Invalid format "@ + debug_quoted(s) + ". Expected \"variable_name=value\"."@
}

/// Splits a start value of the form `variable_name=value` at its first `=`.
///
/// The name is everything before the first `=`, the value everything after
/// it (and may itself contain `=`). Without any `=` the input is refused.
pub fn parse_start_value(s: &str) -> (r: Result<(String, String), String>)
    ensures
        r is Ok <==> s@.contains('='),
        match r {
            Ok((name, value)) => s@ == name@ + seq!['='] + value@ && !name@.contains('='),
            Err(msg) => msg@ == start_value_error(s@),
        },
{
    let n = s.unicode_len();
    let mut i: usize = 0;
    while i < n
        invariant
            n == s@.len(),
            i <= n,
            forall|j: int| 0 <= j < i ==> s@[j] != '=',
        decreases n - i,
    {
        if s.get_char(i) == '=' {
            let name = s.substring_char(0, i).to_owned();
            let value = s.substring_char(i + 1, n).to_owned();
            proof {
                assert(s@ =~= name@ + seq!['='] + value@);
                assert(!name@.contains('=')) by {
                    if name@.contains('=') {
                        let k = choose|k: int| 0 <= k < name@.len() && name@[k] == '=';
                        assert(s@[k] == '=');
                    }
                }
            }
            return Ok((name, value));
        }
        i = i + 1;
    }
    let quoted = debug_quote(s);
    let mut msg = "Invalid format ".to_owned();
    msg.append(quoted.as_str());
    msg.append(". Expected \"variable_name=value\".");
    Err(msg)
}

} // verus!
