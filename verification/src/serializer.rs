//! Rendering of a log event as one CLEF record: a JSON object on a single
//! line, with the level, the time, the process and the message under reserved
//! names, followed by the parameters of the process and the context of the
//! event.

use crate::date_time::civil_of;
use crate::log_event::{ContextModel, LogLevel, MyLogEvent, MyLogEventModel};
use crate::populated_params::PopulatedParams;
use crate::seq_utils::{
    format_seq_string, is_control, lemma_seq_string_has_no_control, seq_string,
};
use crate::settings::is_digit;
use crate::text::{chars_eq, chars_of, str_eq};
use crate::upload_logs_chunk::{append_bytes, join_records};
use std::sync::Arc;
use vstd::prelude::*;
use vstd::std_specs::iter::IteratorSpec;
use vstd::string::StringExecFns;
use vstd::utf8::encode_utf8;

verus! {

/// The index behind the digits that start at `from`; `from` itself where no
/// digit stands there.
pub open spec fn digits_end(s: Seq<char>, from: int) -> int
    decreases s.len() - from,
{
    if 0 <= from < s.len() && is_digit(s[from]) {
        digits_end(s, from + 1)
    } else {
        from
    }
}

pub open spec fn is_json_null(s: Seq<char>) -> bool {
    s == "null"@
}

pub open spec fn is_json_bool(s: Seq<char>) -> bool {
    s == "true"@ || s == "false"@
}

/// Where the digits of the integer part of a number start: behind the minus
/// sign, if there is one.
pub open spec fn number_int_start(s: Seq<char>) -> int {
    if s.len() > 0 && s[0] == '-' {
        1
    } else {
        0
    }
}

/// Where the fraction of a number ends, given where its integer part ends:
/// behind the digits after a `.`, or where the integer part ends if no `.`
/// follows it.
pub open spec fn number_frac_end(s: Seq<char>, int_end: int) -> int {
    if int_end < s.len() && s[int_end] == '.' {
        digits_end(s, int_end + 1)
    } else {
        int_end
    }
}

/// Where the digits of the exponent of a number start, given where its
/// fraction ends: behind `e` or `E` and an optional sign, or where the
/// fraction ends if no `e` or `E` follows it.
pub open spec fn number_exp_start(s: Seq<char>, frac_end: int) -> int {
    if frac_end < s.len() && (s[frac_end] == 'e' || s[frac_end] == 'E') {
        if frac_end + 1 < s.len() && (s[frac_end + 1] == '+' || s[frac_end + 1] == '-') {
            frac_end + 2
        } else {
            frac_end + 1
        }
    } else {
        frac_end
    }
}

/// Whether the text is a JSON number: an optional `-`; then `0`, or a digit
/// from 1 to 9 and any digits; then optionally `.` and one digit or more;
/// then optionally `e` or `E`, an optional sign and one digit or more; and
/// nothing else.
pub open spec fn is_json_number(s: Seq<char>) -> bool {
    let int_start = number_int_start(s);
    let int_end = digits_end(s, int_start);
    let frac_end = number_frac_end(s, int_end);
    let exp_start = number_exp_start(s, frac_end);
    let exp_end = if exp_start > frac_end {
        digits_end(s, exp_start)
    } else {
        frac_end
    };
    &&& int_end > int_start
    &&& (s[int_start] != '0' || int_end == int_start + 1)
    &&& (frac_end == int_end || frac_end > int_end + 1)
    &&& (exp_start == frac_end || exp_end > exp_start)
    &&& exp_end == s.len()
}

/// Whether the text is a JSON literal that goes into a record as it is: null,
/// a number, or a boolean.
pub open spec fn is_raw_json(s: Seq<char>) -> bool {
    is_json_null(s) || is_json_number(s) || is_json_bool(s)
}

/// How a value goes into a record.
#[derive(Debug, Clone, Copy, PartialEq, Eq, Structural)]
pub enum ContextType {
    /// Quoted and escaped, as a JSON string.
    String,
    /// As it is: the value is a JSON null, number or boolean.
    Raw,
}

/// The index behind the digits that start at `from`.
fn skip_digits(s: &[char], from: usize) -> (end: usize)
    requires
        from <= s.len(),
    ensures
        end == digits_end(s@, from as int),
        from <= end <= s.len(),
{
    let mut i = from;
    while i < s.len() && s[i] >= '0' && s[i] <= '9'
        invariant
            from <= i <= s.len(),
            digits_end(s@, from as int) == digits_end(s@, i as int),
        decreases s.len() - i,
    {
        i += 1;
    }
    i
}

/// Whether the text is a JSON number.
pub fn is_number(s: &[char]) -> (answer: bool)
    ensures
        answer == is_json_number(s@),
{
    let int_start: usize = if s.len() > 0 && s[0] == '-' {
        1
    } else {
        0
    };
    let int_end = skip_digits(s, int_start);
    if int_end == int_start {
        return false;
    }
    if s[int_start] == '0' && int_end - int_start != 1 {
        return false;
    }
    let frac_end = if int_end < s.len() && s[int_end] == '.' {
        skip_digits(s, int_end + 1)
    } else {
        int_end
    };
    if frac_end - int_end == 1 {
        return false;
    }
    let exp_start = if frac_end < s.len() && (s[frac_end] == 'e' || s[frac_end] == 'E') {
        if frac_end + 1 < s.len() && (s[frac_end + 1] == '+' || s[frac_end + 1] == '-') {
            frac_end + 2
        } else {
            frac_end + 1
        }
    } else {
        frac_end
    };
    let exp_end = if exp_start > frac_end {
        skip_digits(s, exp_start)
    } else {
        frac_end
    };
    if exp_start > frac_end && exp_end == exp_start {
        return false;
    }
    exp_end == s.len()
}

/// Whether the text is the JSON literal `null`.
pub fn is_null(s: &[char]) -> (answer: bool)
    ensures
        answer == is_json_null(s@),
{
    chars_eq(s, chars_of("null").as_slice())
}

/// Whether the text is the JSON literal `true` or `false`.
pub fn is_bool(s: &[char]) -> (answer: bool)
    ensures
        answer == is_json_bool(s@),
{
    chars_eq(s, chars_of("true").as_slice()) || chars_eq(s, chars_of("false").as_slice())
}

impl ContextType {
    /// How the value `src` goes into a record: raw exactly if it is a JSON
    /// null, number or boolean.
    pub fn new(src: &str) -> (kind: Self)
        ensures
            kind == if is_raw_json(src@) {
                ContextType::Raw
            } else {
                ContextType::String
            },
    {
        let chars = chars_of(src);
        if is_null(chars.as_slice()) {
            return ContextType::Raw;
        }
        if is_number(chars.as_slice()) {
            return ContextType::Raw;
        }
        if is_bool(chars.as_slice()) {
            return ContextType::Raw;
        }
        ContextType::String
    }
}

/// The name under which a record carries a level.
pub open spec fn level_label(level: LogLevel) -> Seq<char> {
    match level {
        LogLevel::Info => "Info"@,
        LogLevel::Warning => "Warning"@,
        LogLevel::Error => "Error"@,
        LogLevel::FatalError => "Fatal"@,
        LogLevel::Debug => "Debug"@,
    }
}

/// What stands for one character inside a JSON string, as far as quoting
/// goes: `"` and `\` get a `\` in front.
pub open spec fn quoted_char(c: char) -> Seq<char> {
    if c == '"' {
        seq!['\\', '"']
    } else if c == '\\' {
        seq!['\\', '\\']
    } else {
        seq![c]
    }
}

/// The text with `"` and `\` quoted.
pub open spec fn escape_quotes(src: Seq<char>) -> Seq<char>
    decreases src.len(),
{
    if src.len() == 0 {
        Seq::empty()
    } else {
        escape_quotes(src.drop_last()) + quoted_char(src.last())
    }
}

/// The text as a JSON string: between double quotes, with `"` and `\` quoted,
/// line feeds and carriage returns written as `\n` and `\r`, and the other
/// control characters left out.
pub open spec fn json_string(src: Seq<char>) -> Seq<char> {
    seq!['"'] + seq_string(escape_quotes(src)) + seq!['"']
}

/// A value as it stands in a record: as it is if it is a JSON null, number or
/// boolean, as a JSON string otherwise.
pub open spec fn json_value(value: Seq<char>) -> Seq<char> {
    if is_raw_json(value) {
        value
    } else {
        json_string(value)
    }
}

/// One field of a record: the name as a JSON string, a colon, and the value
/// as it is given.
pub open spec fn json_field(name: Seq<char>, value_text: Seq<char>) -> Seq<char> {
    json_string(name) + seq![':'] + value_text
}

/// The name under which a record carries a parameter of the process:
/// `Location` goes under `@x`, every other key under itself.
pub open spec fn param_name(key: Seq<char>) -> Seq<char> {
    if key == "Location"@ {
        "@x"@
    } else {
        key
    }
}

/// The fields of the pairs in their order, each with a comma in front. With
/// `as_params`, the keys are named as `param_name` says.
pub open spec fn pair_fields(pairs: ContextModel, as_params: bool) -> Seq<char>
    decreases pairs.len(),
{
    if pairs.len() == 0 {
        Seq::empty()
    } else {
        pair_fields(pairs.drop_last(), as_params) + seq![','] + json_field(
            if as_params {
                param_name(pairs.last().0)
            } else {
                pairs.last().0
            },
            json_value(pairs.last().1),
        )
    }
}

/// The four fields that every record starts with.
pub open spec fn head_fields(event: MyLogEventModel) -> Seq<char> {
    json_field("@l"@, json_string(level_label(event.level))) + seq![','] + json_field(
        "@t"@,
        json_string(civil_of(event.dt).millis_text()),
    ) + seq![','] + json_field("Process"@, json_string(event.process)) + seq![','] + json_field(
        "@m"@,
        json_string(event.message),
    )
}

/// The record of an event: a JSON object with the level under `@l`, the time
/// in UTC cut to the millisecond under `@t`, the process under `Process`, the
/// message under `@m`, then one field for each parameter of the process and
/// one for each entry of the context, in their order.
pub open spec fn clef_record(event: MyLogEventModel, params: ContextModel) -> Seq<char> {
    seq!['{'] + head_fields(event) + pair_fields(params, true) + match event.context {
        Some(context) => pair_fields(context, false),
        None => Seq::empty(),
    } + seq!['}']
}

/// The pairs as mathematical values.
pub open spec fn pairs_of(pairs: Seq<(String, String)>) -> ContextModel {
    pairs.map_values(|pair: (String, String)| (pair.0@, pair.1@))
}

/// Quotes `"` and `\`.
fn quote(src: &str) -> (out: String)
    ensures
        out@ == escape_quotes(src@),
{
    let mut out = String::new();
    for c in it: src.chars()
        invariant
            it.seq() == src@,
            out@ == escape_quotes(it.seq().take(it.index() as int)),
    {
        proof {
            let longer = it.seq().take(it.index() + 1);
            assert(longer.drop_last() == it.seq().take(it.index() as int));
            assert(longer.last() == c);
        }
        if c == '"' {
            out.push('\\');
            out.push('"');
        } else if c == '\\' {
            out.push('\\');
            out.push('\\');
        } else {
            out.push(c);
        }
        assert(out@ == escape_quotes(it.seq().take(it.index() as int)) + quoted_char(c));
    }
    assert(src@.take(src@.len() as int) == src@);
    out
}

/// Appends the text as a JSON string.
fn push_json_string(out: &mut String, src: &str)
    ensures
        final(out)@ == old(out)@ + json_string(src@),
{
    let quoted = quote(src);
    let escaped = format_seq_string(quoted.as_str());
    out.push('"');
    out.append(escaped.as_str());
    out.push('"');
    assert(out@ == old(out)@ + json_string(src@));
}

/// Appends a field whose value is a JSON string.
fn push_string_field(out: &mut String, name: &str, value: &str)
    ensures
        final(out)@ == old(out)@ + json_field(name@, json_string(value@)),
{
    push_json_string(out, name);
    out.push(':');
    push_json_string(out, value);
    assert(out@ == old(out)@ + json_field(name@, json_string(value@)));
}

/// Appends a field whose value is raw where it is a JSON literal.
fn push_value_field(out: &mut String, name: &str, value: &str)
    ensures
        final(out)@ == old(out)@ + json_field(name@, json_value(value@)),
{
    push_json_string(out, name);
    out.push(':');
    match ContextType::new(value) {
        ContextType::String => {
            push_json_string(out, value);
        },
        ContextType::Raw => {
            out.append(value);
        },
    }
    assert(out@ == old(out)@ + json_field(name@, json_value(value@)));
}

/// Appends the fields of the pairs, each with a comma in front.
fn push_pair_fields(out: &mut String, pairs: &[(String, String)], as_params: bool)
    ensures
        final(out)@ == old(out)@ + pair_fields(pairs_of(pairs@), as_params),
{
    let ghost model = pairs_of(pairs@);
    let mut i: usize = 0;
    assert(model.take(0) == ContextModel::empty());
    while i < pairs.len()
        invariant
            i <= pairs.len(),
            model == pairs_of(pairs@),
            out@ == old(out)@ + pair_fields(model.take(i as int), as_params),
        decreases pairs.len() - i,
    {
        let key = pairs[i].0.as_str();
        let value = pairs[i].1.as_str();
        proof {
            let longer = model.take(i as int + 1);
            assert(longer.drop_last() == model.take(i as int));
            assert(longer.last() == (key@, value@));
        }
        out.push(',');
        if as_params && str_eq(key, "Location") {
            push_value_field(out, "@x", value);
        } else {
            push_value_field(out, key, value);
        }
        i += 1;
        assert(out@ == old(out)@ + pair_fields(model.take(i as int), as_params));
    }
    assert(model.take(i as int) == model);
}

/// The name under which a record carries a level.
fn level_as_str(level: LogLevel) -> (label: &'static str)
    ensures
        label@ == level_label(level),
{
    match level {
        LogLevel::Info => "Info",
        LogLevel::Warning => "Warning",
        LogLevel::Error => "Error",
        LogLevel::FatalError => "Fatal",
        LogLevel::Debug => "Debug",
    }
}

/// Renders an event as one CLEF record, into the buffer it is given: what the
/// buffer held before is gone.
pub fn serialize(
    compile_buffer: String,
    log_event: &MyLogEvent,
    populated_params: &PopulatedParams,
) -> (record: String)
    ensures
        record@ == clef_record(log_event@, populated_params@),
{
    let mut out = compile_buffer;
    out.clear();
    out.push('{');
    let ghost opened = out@;
    push_string_field(&mut out, "@l", level_as_str(log_event.level));
    out.push(',');
    let time = log_event.dt.to_millis_text();
    push_string_field(&mut out, "@t", time.as_str());
    out.push(',');
    push_string_field(&mut out, "Process", log_event.process.as_str());
    out.push(',');
    push_string_field(&mut out, "@m", log_event.message.as_str());
    assert(out@ == opened + head_fields(log_event@));
    let params = populated_params.get_data();
    assert(pairs_of(params@) == populated_params@) by {
        populated_params.lemma_view();
    }
    push_pair_fields(&mut out, params, true);
    let ghost with_params = out@;
    match &log_event.context {
        Some(context) => {
            assert(pairs_of(context@) == context.deep_view());
            push_pair_fields(&mut out, context.as_slice(), false);
        },
        None => {
            assert(out@ == with_params + Seq::<char>::empty());
        },
    }
    out.push('}');
    assert(out@ == clef_record(log_event@, populated_params@));
    out
}

/// No character of the text is a control character.
pub open spec fn no_control(text: Seq<char>) -> bool {
    forall|i: int| 0 <= i < text.len() ==> !is_control(#[trigger] text[i])
}

/// Two texts without control characters make one without when joined.
pub proof fn lemma_no_control_concat(a: Seq<char>, b: Seq<char>)
    requires
        no_control(a),
        no_control(b),
    ensures
        no_control(a + b),
{
    assert forall|i: int| 0 <= i < (a + b).len() implies !is_control(#[trigger] (a + b)[i]) by {
        if i < a.len() {
            assert((a + b)[i] == a[i]);
        } else {
            assert((a + b)[i] == b[i - a.len()]);
        }
    }
}

/// Between `from` and where the digits end stand digits only.
pub proof fn lemma_digits_end(s: Seq<char>, from: int)
    requires
        0 <= from <= s.len(),
    ensures
        from <= digits_end(s, from) <= s.len(),
        forall|i: int| from <= i < digits_end(s, from) ==> is_digit(#[trigger] s[i]),
    decreases s.len() - from,
{
    if from < s.len() && is_digit(s[from]) {
        lemma_digits_end(s, from + 1);
    }
}

/// A JSON number holds no control character.
pub proof fn lemma_number_has_no_control(s: Seq<char>)
    requires
        is_json_number(s),
    ensures
        no_control(s),
{
    let int_start = number_int_start(s);
    lemma_digits_end(s, int_start);
    let int_end = digits_end(s, int_start);
    if int_end < s.len() && s[int_end] == '.' {
        lemma_digits_end(s, int_end + 1);
    }
    let frac_end = number_frac_end(s, int_end);
    let exp_start = number_exp_start(s, frac_end);
    if exp_start > frac_end {
        lemma_digits_end(s, exp_start);
    }
    assert forall|i: int| 0 <= i < s.len() implies !is_control(#[trigger] s[i]) by {
        if i < int_start {
            assert(s[i] == '-');
        } else if i < int_end {
            assert(is_digit(s[i]));
        } else if i < frac_end {
            if i > int_end {
                assert(is_digit(s[i]));
            }
        } else if i < exp_start {
        } else {
            assert(is_digit(s[i]));
        }
    }
}

/// A value stands in a record without control characters.
pub proof fn lemma_json_value_has_no_control(value: Seq<char>)
    ensures
        no_control(json_value(value)),
        no_control(json_string(value)),
{
    lemma_seq_string_has_no_control(escape_quotes(value));
    assert(no_control(seq_string(escape_quotes(value))));
    assert(no_control(seq!['"']));
    lemma_no_control_concat(seq!['"'], seq_string(escape_quotes(value)));
    lemma_no_control_concat(seq!['"'] + seq_string(escape_quotes(value)), seq!['"']);
    if is_json_null(value) {
        reveal_strlit("null");
        assert(no_control(value));
    } else if is_json_number(value) {
        lemma_number_has_no_control(value);
    } else if is_json_bool(value) {
        reveal_strlit("true");
        reveal_strlit("false");
        assert(no_control(value));
    }
}

/// A field stands in a record without control characters, if its value does.
pub proof fn lemma_json_field_has_no_control(name: Seq<char>, value_text: Seq<char>)
    requires
        no_control(value_text),
    ensures
        no_control(json_field(name, value_text)),
{
    lemma_json_value_has_no_control(name);
    assert(no_control(seq![':']));
    lemma_no_control_concat(json_string(name), seq![':']);
    lemma_no_control_concat(json_string(name) + seq![':'], value_text);
}

/// The fields of pairs stand in a record without control characters.
pub proof fn lemma_pair_fields_have_no_control(pairs: ContextModel, as_params: bool)
    ensures
        no_control(pair_fields(pairs, as_params)),
    decreases pairs.len(),
{
    if pairs.len() > 0 {
        lemma_pair_fields_have_no_control(pairs.drop_last(), as_params);
        let name = if as_params {
            param_name(pairs.last().0)
        } else {
            pairs.last().0
        };
        lemma_json_value_has_no_control(pairs.last().1);
        lemma_json_field_has_no_control(name, json_value(pairs.last().1));
        assert(no_control(seq![',']));
        lemma_no_control_concat(pair_fields(pairs.drop_last(), as_params), seq![',']);
        lemma_no_control_concat(
            pair_fields(pairs.drop_last(), as_params) + seq![','],
            json_field(name, json_value(pairs.last().1)),
        );
    }
}

/// A record is one line: whatever the event and the parameters hold, no
/// control character, and so no line end, stands in the record.
pub proof fn lemma_record_is_one_line(event: MyLogEventModel, params: ContextModel)
    ensures
        no_control(clef_record(event, params)),
{
    let comma = seq![','];
    assert(no_control(comma));
    assert(no_control(seq!['{']));
    assert(no_control(seq!['}']));
    let level = json_field("@l"@, json_string(level_label(event.level)));
    let time = json_field("@t"@, json_string(civil_of(event.dt).millis_text()));
    let process = json_field("Process"@, json_string(event.process));
    let message = json_field("@m"@, json_string(event.message));
    lemma_json_value_has_no_control(level_label(event.level));
    lemma_json_value_has_no_control(civil_of(event.dt).millis_text());
    lemma_json_value_has_no_control(event.process);
    lemma_json_value_has_no_control(event.message);
    lemma_json_field_has_no_control("@l"@, json_string(level_label(event.level)));
    lemma_json_field_has_no_control("@t"@, json_string(civil_of(event.dt).millis_text()));
    lemma_json_field_has_no_control("Process"@, json_string(event.process));
    lemma_json_field_has_no_control("@m"@, json_string(event.message));
    lemma_no_control_concat(level, comma);
    lemma_no_control_concat(level + comma, time);
    lemma_no_control_concat(level + comma + time, comma);
    lemma_no_control_concat(level + comma + time + comma, process);
    lemma_no_control_concat(level + comma + time + comma + process, comma);
    lemma_no_control_concat(level + comma + time + comma + process + comma, message);
    assert(no_control(head_fields(event)));
    lemma_pair_fields_have_no_control(params, true);
    let context = match event.context {
        Some(context) => pair_fields(context, false),
        None => Seq::empty(),
    };
    match event.context {
        Some(pairs) => {
            lemma_pair_fields_have_no_control(pairs, false);
        },
        None => {},
    }
    lemma_no_control_concat(seq!['{'], head_fields(event));
    lemma_no_control_concat(seq!['{'] + head_fields(event), pair_fields(params, true));
    lemma_no_control_concat(
        seq!['{'] + head_fields(event) + pair_fields(params, true),
        context,
    );
    lemma_no_control_concat(
        seq!['{'] + head_fields(event) + pair_fields(params, true) + context,
        seq!['}'],
    );
}

/// The record of an event depends on nothing but the event and the
/// parameters: two renderings of the same event with the same parameters are
/// the same text, and so the same bytes.
pub proof fn lemma_serialize_is_repeatable(
    first: Seq<char>,
    second: Seq<char>,
    event: MyLogEventModel,
    params: ContextModel,
)
    requires
        first == clef_record(event, params),
        second == clef_record(event, params),
    ensures
        first == second,
        encode_utf8(first) == encode_utf8(second),
{
}

/// The records of the events as bytes, each the UTF-8 form of its text.
pub open spec fn record_bytes(events: Seq<MyLogEventModel>, params: ContextModel) -> Seq<Seq<u8>> {
    events.map_values(|event: MyLogEventModel| encode_utf8(clef_record(event, params)))
}

/// The events behind shared pointers, as mathematical values.
pub open spec fn shared_events(data: Seq<Arc<MyLogEvent>>) -> Seq<MyLogEventModel> {
    data.map_values(|event: Arc<MyLogEvent>| event@)
}

/// Renders the events as records and joins them, with carriage return and
/// line feed between each two.
pub fn compile_body(populated_params: &PopulatedParams, data: &[Arc<MyLogEvent>]) -> (body: Vec<u8>)
    ensures
        body@ == join_records(record_bytes(shared_events(data@), populated_params@)),
{
    let ghost records = record_bytes(shared_events(data@), populated_params@);
    let mut body: Vec<u8> = Vec::new();
    let mut buffer = String::new();
    let mut i: usize = 0;
    assert(records.take(0) == Seq::<Seq<u8>>::empty());
    while i < data.len()
        invariant
            i <= data.len(),
            records == record_bytes(shared_events(data@), populated_params@),
            body@ == join_records(records.take(i as int)),
        decreases data.len() - i,
    {
        buffer = serialize(buffer, &data[i], populated_params);
        proof {
            let longer = records.take(i as int + 1);
            assert(longer.drop_last() == records.take(i as int));
            assert(longer.last() == encode_utf8(buffer@));
            assert(longer[0] == records[0]);
        }
        if i > 0 {
            body.push(13);
            body.push(10);
        }
        append_bytes(&mut body, buffer.as_str().as_bytes());
        i += 1;
        assert(body@ == join_records(records.take(i as int)));
    }
    assert(records.take(i as int) == records);
    body
}

} // verus!
