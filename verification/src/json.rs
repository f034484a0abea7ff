use vstd::prelude::*;

verus! {

#[verifier::external_type_specification]
#[verifier::external_body]
pub struct ExJsonError(serde_json::Error);

pub open spec fn hex_digit(n: nat) -> char {
    seq!['0', '1', '2', '3', '4', '5', '6', '7', '8', '9', 'a', 'b', 'c', 'd', 'e', 'f'][n as int]
}

/// How a JSON string writes `c`: quote, backslash and the control characters
/// are escaped (the common ones by letter, the rest as `\u00xx`); every other
/// character stands as it is.
pub open spec fn json_escape(c: char) -> Seq<char> {
    if c == '"' {
        seq!['\\', '"']
    } else if c == '\\' {
        seq!['\\', '\\']
    } else if c == '\u{8}' {
        seq!['\\', 'b']
    } else if c == '\t' {
        seq!['\\', 't']
    } else if c == '\n' {
        seq!['\\', 'n']
    } else if c == '\u{c}' {
        seq!['\\', 'f']
    } else if c == '\r' {
        seq!['\\', 'r']
    } else if (c as nat) < 0x20 {
        seq!['\\', 'u', '0', '0', hex_digit((c as nat) / 16), hex_digit((c as nat) % 16)]
    } else {
        seq![c]
    }
}

pub open spec fn json_escaped(s: Seq<char>) -> Seq<char>
    decreases s.len(),
{
    if s.len() == 0 {
        seq![]
    } else {
        json_escaped(s.drop_last()) + json_escape(s.last())
    }
}

/// The JSON string literal of `s`.
pub open spec fn json_quoted(s: Seq<char>) -> Seq<char> {
    seq!['"'] + json_escaped(s) + seq!['"']
}

/// The string that the member `key` of the JSON object written in `text` holds:
/// `None` where `text` is no JSON, no object, has no such member, or the member
/// is no string.
pub uninterp spec fn json_member_str(text: Seq<char>, key: Seq<char>) -> Option<Seq<char>>;

/// `serde_json::to_string` on a `str`. Its source writes the string as a JSON
/// string literal, escaping as [`json_escape`] says, into a `Vec<u8>`, which
/// cannot fail; so the result is always `Ok` with [`json_quoted`].
#[verifier::external_body]
pub(crate) fn json_string(s: &str) -> (r: Result<String, serde_json::Error>)
    ensures
        r is Ok,
        r matches Ok(j) ==> j@ == json_quoted(s@),
{
    serde_json::to_string(s)
}

/// `serde_json::from_str::<serde_json::Value>` on `text`, then `Value::get(key)`
/// and `Value::as_str` on what it gives. What comes back is named by
/// [`json_member_str`]; the JSON grammar it decides on is not stated here.
#[verifier::external_body]
pub(crate) fn json_str_member(text: &str, key: &str) -> (r: Option<String>)
    ensures
        r is None <==> json_member_str(text@, key@) is None,
        r matches Some(s) ==> json_member_str(text@, key@) == Some(s@),
{
    match serde_json::from_str::<serde_json::Value>(text) {
        Ok(value) => value.get(key).and_then(serde_json::Value::as_str).map(str::to_string),
        Err(_) => None,
    }
}

/// The script that sends the main window to `admin_url`:
/// `window.location.replace(<admin_url as a JSON string>);`.
pub fn navigate_script(admin_url: &str) -> (r: String)
    ensures
        r@ == "window.location.replace("@ + json_quoted(admin_url@) + ");"@,
{
    match json_string(admin_url) {
        Ok(url_json) => {
            let mut script = String::from_str("window.location.replace(");
            script.append(url_json.as_str());
            script.append(");");
            script
        },
        Err(_) => {
            proof {
                assert(false);
            }
            String::new()
        },
    }
}

/// The script that hands a status payload, already written as JSON, to the
/// start page: it dispatches a `desktop-status` event whose `detail` is the payload.
pub fn status_script(payload_json: &str) -> (r: String)
    ensures
        r@ == "window.dispatchEvent(new CustomEvent('desktop-status', { detail: "@ + payload_json@
            + " }));"@,
{
    let mut script = String::from_str("window.dispatchEvent(new CustomEvent('desktop-status', { detail: ");
    script.append(payload_json);
    script.append(" }));");
    script
}

} // verus!
