//! JSON and YAML text: reading it into the library's JSON values with
//! `serde_json` and `serde_yaml`, and writing a value as JSON text.
use vstd::prelude::*;
use crate::json::{Json, JsonV};
use serde_json::Value;

verus! {

#[verifier::external_type_specification]
#[verifier::external_body]
pub struct ExJsonValue(Value);

/// The value that `serde_json::from_str::<serde_json::Value>` reads from a text,
/// taken into the library's model; nothing where the text is not JSON.
pub uninterp spec fn json_text_value(text: Seq<char>) -> Option<JsonV>;

/// The value that `serde_yaml::from_str::<serde_json::Value>` reads from a text,
/// taken into the library's model; nothing where the text is not such YAML.
pub uninterp spec fn yaml_text_value(text: Seq<char>) -> Option<JsonV>;

/// The text that `serde_json::to_string` writes for a value, with each number
/// kept as text written as the number that text reads as, or as `null` where it
/// does not read as a JSON number.
pub uninterp spec fn json_text(v: JsonV) -> Seq<char>;

/// Takes a `serde_json::Value` into the library's value, variant for variant:
/// numbers that fit `u64` or `i64` stay integers, other numbers keep their text,
/// objects keep serde_json's member order.
#[verifier::external_body]
fn json_of_value(v: &Value) -> Json {
    match v {
        Value::Null => Json::Null,
        Value::Bool(b) => Json::Bool(*b),
        Value::Number(n) => match (n.as_u64(), n.as_i64()) {
            (Some(u), _) => Json::PosInt(u),
            (None, Some(i)) => Json::NegInt(i),
            (None, None) => Json::Float(n.to_string()),
        },
        Value::String(s) => Json::Str(s.clone()),
        Value::Array(a) => Json::Array(a.iter().map(json_of_value).collect()),
        Value::Object(m) => Json::Object(m.iter().map(|(k, x)| (k.clone(), json_of_value(x))).collect()),
    }
}

/// Takes a library value into a `serde_json::Value`, variant for variant; a
/// number kept as text is read back as a number.
#[verifier::external_body]
fn value_of_json(j: &Json) -> Value {
    match j {
        Json::Null => Value::Null,
        Json::Bool(b) => Value::Bool(*b),
        Json::PosInt(n) => Value::from(*n),
        Json::NegInt(n) => Value::from(*n),
        Json::Float(s) => serde_json::from_str(s).unwrap_or(Value::Null),
        Json::Str(s) => Value::String(s.clone()),
        Json::Array(a) => Value::Array(a.iter().map(value_of_json).collect()),
        Json::Object(m) => Value::Object(m.iter().map(|(k, x)| (k.clone(), value_of_json(x))).collect()),
    }
}

/// The message that `serde_json::from_str::<serde_json::Value>` gives, through
/// its `Display`, where it refuses a text.
pub uninterp spec fn json_error_text(text: Seq<char>) -> Seq<char>;

/// Reads JSON text with `serde_json::from_str::<serde_json::Value>`; the value is
/// named by `json_text_value`, the refusal's message by `json_error_text`. Of
/// the value only this is claimed: its objects come from `serde_json::Map`, a
/// `BTreeMap` by key, so no object holds a key twice.
#[verifier::external_body]
pub(crate) fn read_json(text: &str) -> (r: Result<Json, String>)
    ensures
        r matches Ok(j) ==> crate::state_manager::keys_unique(j@),
        match r {
            Ok(j) => json_text_value(text@) == Some(j@),
            Err(e) => json_text_value(text@) is None && e@ == json_error_text(text@),
        },
{
    match serde_json::from_str::<Value>(text) {
        Ok(v) => Ok(json_of_value(&v)),
        Err(e) => Err(e.to_string()),
    }
}

/// Reads JSON text, as `json_text_value` says; nothing where it is not JSON.
pub fn parse_json_text(text: &str) -> (r: Option<Json>)
    ensures
        r matches Some(j) ==> crate::state_manager::keys_unique(j@),
        match r {
            Some(j) => json_text_value(text@) == Some(j@),
            None => json_text_value(text@) is None,
        },
{
    match read_json(text) {
        Ok(j) => Some(j),
        Err(_) => None,
    }
}

/// Reads YAML text with `serde_yaml::from_str::<serde_json::Value>`; the value is
/// named by `yaml_text_value`. Of it only this is claimed: its objects come from
/// `serde_json::Map`, a `BTreeMap` by key, so no object holds a key twice. A read
/// that fails gives nothing.
#[verifier::external_body]
pub fn parse_yaml_text(text: &str) -> (r: Option<Json>)
    ensures
        r matches Some(j) ==> crate::state_manager::keys_unique(j@),
        match r {
            Some(j) => yaml_text_value(text@) == Some(j@),
            None => yaml_text_value(text@) is None,
        },
{
    match serde_yaml::from_str::<Value>(text) {
        Ok(v) => Some(json_of_value(&v)),
        Err(_) => None,
    }
}

/// Writes a value as compact JSON text with `serde_json::to_string`; the text is
/// named by `json_text`. A number kept as text is read back with
/// `serde_json::from_str` and written as `null` where it does not read as a
/// number. Writing a `serde_json::Value` does not fail: its keys are strings and
/// its numbers finite.
#[verifier::external_body]
pub fn json_to_text(j: &Json) -> (r: String)
    ensures
        r@ == json_text(j@),
{
    serde_json::to_string(&value_of_json(j)).unwrap_or_default()
}

/// What JSON-or-YAML text holds: JSON where the text, without its leading
/// white space, starts with `{`, else YAML.
pub open spec fn json_or_yaml_value(text: Seq<char>) -> Option<JsonV> {
    let t = crate::text::trim(text);
    if t.len() > 0 && t[0] == '{' {
        json_text_value(text)
    } else {
        yaml_text_value(text)
    }
}

/// Reads JSON-or-YAML text, as `json_or_yaml_value` says.
pub fn parse_json_or_yaml(text: &str) -> (r: Option<Json>)
    ensures
        match r {
            Some(j) => json_or_yaml_value(text@) == Some(j@),
            None => json_or_yaml_value(text@) is None,
        },
{
    let t = crate::text::trim_chars(&crate::text::chars_of(text));
    if t.len() > 0 && t[0] == '{' {
        parse_json_text(text)
    } else {
        parse_yaml_text(text)
    }
}

/// What a local configuration file holds: JSON where it reads as JSON, else YAML.
pub open spec fn json_then_yaml_value(text: Seq<char>) -> Option<JsonV> {
    match json_text_value(text) {
        Some(v) => Some(v),
        None => yaml_text_value(text),
    }
}

/// Reads a text as JSON, and where that fails as YAML.
pub fn parse_json_then_yaml(text: &str) -> (r: Option<Json>)
    ensures
        match r {
            Some(j) => json_then_yaml_value(text@) == Some(j@),
            None => json_then_yaml_value(text@) is None,
        },
{
    match parse_json_text(text) {
        Some(j) => Some(j),
        None => parse_yaml_text(text),
    }
}

} // verus!

verus! {

/// Lines joined with line feeds between them, as `join("\n")` gives them.
pub open spec fn joined_lines(ls: Seq<Seq<char>>) -> Seq<char>
    decreases ls.len(),
{
    if ls.len() == 0 {
        Seq::empty()
    } else if ls.len() == 1 {
        ls[0]
    } else {
        joined_lines(ls.drop_last()) + seq!['\n'] + ls.last()
    }
}

/// What cloud-init user data stands for: the YAML after the first line of a
/// `#cloud-config` document; a script (starting `#!/`) as the one command to
/// run; else what the text reads as, JSON first, then YAML.
pub open spec fn user_data_value_spec(content: Seq<char>) -> Option<JsonV> {
    if crate::text::has_prefix(content, "#cloud-config"@) {
        let ls = crate::text::str_lines(content);
        yaml_text_value(if ls.len() == 0 { Seq::empty() } else { joined_lines(ls.drop_first()) })
    } else if crate::text::has_prefix(content, "#!/"@) {
        Some(JsonV::Object(seq![("runcmd"@, JsonV::Array(seq![JsonV::Str(content)]))]))
    } else {
        json_then_yaml_value(content)
    }
}

/// What cloud-init user data stands for, as `user_data_value_spec` says.
pub fn user_data_value(content: &str) -> (r: Option<Json>)
    ensures
        match r {
            Some(j) => user_data_value_spec(content@) == Some(j@),
            None => user_data_value_spec(content@) is None,
        },
{
    let c = crate::text::chars_of(content);
    if crate::text::starts_with_chars(&c, &crate::text::chars_of("#cloud-config")) {
        let lines = crate::text::lines_of(&c);
        let ghost ls = crate::text::views_of(lines@);
        let mut body: Vec<char> = Vec::new();
        let mut i: usize = 1;
        if lines.len() > 0 {
            assert(ls.drop_first().subrange(0, 0) =~= Seq::<Seq<char>>::empty());
            while i < lines.len()
                invariant
                    1 <= i <= lines@.len(),
                    ls == crate::text::views_of(lines@),
                    body@ == joined_lines(ls.drop_first().subrange(0, i - 1)),
                decreases lines.len() - i,
            {
                proof {
                    assert(ls.drop_first().subrange(0, i as int).drop_last() =~= ls.drop_first().subrange(0, i - 1));
                }
                if i > 1 {
                    body.push('\n');
                }
                crate::text::append_chars(&mut body, &lines[i]);
                proof {
                    if i == 1 {
                        assert(body@ =~= ls.drop_first().subrange(0, 1)[0]);
                    }
                }
                i = i + 1;
            }
            assert(ls.drop_first().subrange(0, lines@.len() - 1) =~= ls.drop_first());
        }
        let text = crate::text::string_from_chars(&body);
        parse_yaml_text(text.as_str())
    } else if crate::text::starts_with_chars(&c, &crate::text::chars_of("#!/")) {
        let items = vec![Json::Str(content.to_owned())];
        let members = vec![("runcmd".to_owned(), Json::Array(items))];
        proof {
            crate::json::lemma_array_view(items);
            crate::json::lemma_object_view(members);
            assert(crate::json::items_view(items@) =~= seq![JsonV::Str(content@)]);
            assert(crate::json::entries_view(members@) =~= seq![("runcmd"@, JsonV::Array(seq![JsonV::Str(content@)]))]);
        }
        Some(Json::Object(members))
    } else {
        parse_json_then_yaml(content)
    }
}

} // verus!
