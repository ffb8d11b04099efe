//! Settings of the shipping pipeline, read from a connection string of
//! `;`-separated `key=value` items.

use crate::text::{chars_eq, chars_of, push_str, string_of};
use std::time::Duration;
use vstd::prelude::*;
use vstd::slice::slice_subrange;

verus! {

/// Seconds between two shipping cycles, where the connection string does not
/// say.
pub const DEFAULT_FLUSH_SLEEP: u64 = 1;

/// Bytes per chunk, where the connection string does not say.
pub const DEFAULT_FLUSH_CHUNK: usize = 50;

/// Where the connection string comes from. It is asked again at the start of
/// every shipping cycle.
pub trait SeqSettings {
    fn get_conn_string(&self) -> String;
}

/// The span of time that `Duration::from_secs` of the standard library makes
/// of a number of whole seconds.
pub uninterp spec fn duration_of_secs(secs: u64) -> Duration;

/// `Duration::from_secs` of the standard library: the result is named, and
/// nothing else is claimed of it.
pub assume_specification[ Duration::from_secs ](secs: u64) -> (d: Duration)
    ensures
        d == duration_of_secs(secs),
;

/// The index of the first `c` in `s` at or after `from`, or the length of `s`
/// if there is none.
pub open spec fn first_index_from(s: Seq<char>, c: char, from: int) -> int
    decreases s.len() - from,
{
    if from < 0 || from >= s.len() {
        s.len() as int
    } else if s[from] == c {
        from
    } else {
        first_index_from(s, c, from + 1)
    }
}

/// The index of the first `c` in `s`, or the length of `s` if there is none.
pub open spec fn first_index(s: Seq<char>, c: char) -> int {
    first_index_from(s, c, 0)
}

/// What `first_index_from` returns lies between `from` and the length, points
/// at a `c` if it lies inside, and no `c` stands before it.
pub proof fn lemma_first_index_from(s: Seq<char>, c: char, from: int)
    requires
        0 <= from <= s.len(),
    ensures
        from <= first_index_from(s, c, from) <= s.len(),
        first_index_from(s, c, from) < s.len() ==> s[first_index_from(s, c, from)] == c,
        forall|j: int| from <= j < first_index_from(s, c, from) ==> s[j] != c,
    decreases s.len() - from,
{
    if from < s.len() && s[from] != c {
        lemma_first_index_from(s, c, from + 1);
    }
}

/// The pieces of `s` between the occurrences of `sep`. There is always at
/// least one piece; a piece may be empty.
pub open spec fn split(s: Seq<char>, sep: char) -> Seq<Seq<char>>
    decreases s.len(),
{
    let end = first_index(s, sep);
    if 0 <= end < s.len() {
        seq![s.take(end)] + split(s.skip(end + 1), sep)
    } else {
        seq![s]
    }
}

pub open spec fn is_digit(c: char) -> bool {
    '0' <= c <= '9'
}

pub open spec fn digit_value(c: char) -> nat {
    if is_digit(c) {
        (c as int - '0' as int) as nat
    } else {
        0
    }
}

pub open spec fn all_digits(s: Seq<char>) -> bool {
    forall|i: int| 0 <= i < s.len() ==> is_digit(#[trigger] s[i])
}

/// The number that a sequence of decimal digits writes.
pub open spec fn digits_value(s: Seq<char>) -> nat
    decreases s.len(),
{
    if s.len() == 0 {
        0
    } else {
        digits_value(s.drop_last()) * 10 + digit_value(s.last())
    }
}

/// The number that `s` writes in decimal: an optional `+`, then one digit or
/// more, and nothing else. `None` where `s` is not of that form or the number
/// is above `max`.
pub open spec fn parse_unsigned(s: Seq<char>, max: nat) -> Option<nat> {
    let digits = if s.len() > 0 && s[0] == '+' {
        s.skip(1)
    } else {
        s
    };
    if digits.len() > 0 && all_digits(digits) && digits_value(digits) <= max {
        Some(digits_value(digits))
    } else {
        None
    }
}

/// A prefix of a sequence of digits writes no larger number than the whole.
pub proof fn lemma_digits_value_prefix(s: Seq<char>, k: int)
    requires
        0 <= k <= s.len(),
    ensures
        digits_value(s.take(k)) <= digits_value(s),
    decreases s.len(),
{
    if k == s.len() {
        assert(s.take(k) == s);
    } else {
        lemma_digits_value_prefix(s.drop_last(), k);
        assert(s.drop_last().take(k) == s.take(k));
    }
}

/// Settings as a mathematical value, while the items are being read: `url` is
/// `None` until an item gives it.
pub struct SettingsModel {
    pub url: Option<Seq<char>>,
    pub api_key: Option<Seq<char>>,
    pub max_logs_flush_chunk: usize,
    pub flush_delay: u64,
    pub queue_size: Option<usize>,
}

/// Why a connection string is refused, as a mathematical value.
pub enum SettingsFault {
    InvalidKeyValue(Seq<char>),
    InvalidKey(Seq<char>),
    FlushLogsChunkNotANumber,
    FlushDelayNotANumber,
    QueueSizeNotANumber,
    NoUrl,
}

/// Why a connection string is refused.
#[derive(Debug)]
pub enum SettingsError {
    /// An item has no `=`; the item.
    InvalidKeyValue(String),
    /// An item has a key that the settings do not know; the key.
    InvalidKey(String),
    /// The value of `flushlogschunk` is no number that fits.
    FlushLogsChunkNotANumber,
    /// The value of `flushdelay` is no number that fits.
    FlushDelayNotANumber,
    /// The value of `queuesize` is no number that fits.
    QueueSizeNotANumber,
    /// No item gives the `url`.
    NoUrl,
}

impl View for SettingsError {
    type V = SettingsFault;

    open spec fn view(&self) -> SettingsFault {
        match self {
            SettingsError::InvalidKeyValue(item) => SettingsFault::InvalidKeyValue(item@),
            SettingsError::InvalidKey(key) => SettingsFault::InvalidKey(key@),
            SettingsError::FlushLogsChunkNotANumber => SettingsFault::FlushLogsChunkNotANumber,
            SettingsError::FlushDelayNotANumber => SettingsFault::FlushDelayNotANumber,
            SettingsError::QueueSizeNotANumber => SettingsFault::QueueSizeNotANumber,
            SettingsError::NoUrl => SettingsFault::NoUrl,
        }
    }
}

/// The text that reports a fault.
pub open spec fn fault_message(fault: SettingsFault) -> Seq<char> {
    match fault {
        SettingsFault::InvalidKeyValue(item) => "Invalid "@ + item
            + " key value of seq connection string"@,
        SettingsFault::InvalidKey(key) => "Invalid key "@ + key + " of seq connection string "@,
        SettingsFault::FlushLogsChunkNotANumber => "FlushLogsChunk must be a number"@,
        SettingsFault::FlushDelayNotANumber => "FlushDelay must be a number"@,
        SettingsFault::QueueSizeNotANumber => "QueueSize must be a number"@,
        SettingsFault::NoUrl => "There is no URL parameter in seq connection string"@,
    }
}

impl SettingsError {
    /// The text that reports this error.
    pub fn message(&self) -> (text: String)
        ensures
            text@ == fault_message(self@),
    {
        let mut out: Vec<char> = Vec::new();
        match self {
            SettingsError::InvalidKeyValue(item) => {
                push_str(&mut out, "Invalid ");
                push_str(&mut out, item.as_str());
                push_str(&mut out, " key value of seq connection string");
            },
            SettingsError::InvalidKey(key) => {
                push_str(&mut out, "Invalid key ");
                push_str(&mut out, key.as_str());
                push_str(&mut out, " of seq connection string ");
            },
            SettingsError::FlushLogsChunkNotANumber => {
                push_str(&mut out, "FlushLogsChunk must be a number");
            },
            SettingsError::FlushDelayNotANumber => {
                push_str(&mut out, "FlushDelay must be a number");
            },
            SettingsError::QueueSizeNotANumber => {
                push_str(&mut out, "QueueSize must be a number");
            },
            SettingsError::NoUrl => {
                push_str(
                    &mut out,
                    "There is no URL parameter in seq connection string",
                );
            },
        }
        string_of(out.as_slice())
    }
}

/// The settings before any item is read.
pub open spec fn initial_settings() -> SettingsModel {
    SettingsModel {
        url: None,
        api_key: None,
        max_logs_flush_chunk: DEFAULT_FLUSH_CHUNK,
        flush_delay: DEFAULT_FLUSH_SLEEP,
        queue_size: None,
    }
}

/// The settings after one more item, or why the item is refused.
pub open spec fn apply_item(acc: SettingsModel, item: Seq<char>) -> Result<
    SettingsModel,
    SettingsFault,
> {
    let eq = first_index(item, '=');
    if !(0 <= eq < item.len()) {
        Err(SettingsFault::InvalidKeyValue(item))
    } else {
        let key = item.take(eq);
        let value = item.skip(eq + 1);
        if key == "url"@ {
            Ok(SettingsModel { url: Some(value), ..acc })
        } else if key == "apikey"@ {
            Ok(SettingsModel { api_key: Some(value), ..acc })
        } else if key == "flushlogschunk"@ {
            match parse_unsigned(value, usize::MAX as nat) {
                Some(n) => Ok(SettingsModel { max_logs_flush_chunk: n as usize, ..acc }),
                None => Err(SettingsFault::FlushLogsChunkNotANumber),
            }
        } else if key == "flushdelay"@ {
            match parse_unsigned(value, u64::MAX as nat) {
                Some(n) => Ok(SettingsModel { flush_delay: n as u64, ..acc }),
                None => Err(SettingsFault::FlushDelayNotANumber),
            }
        } else if key == "queuesize"@ {
            match parse_unsigned(value, usize::MAX as nat) {
                Some(n) => Ok(SettingsModel { queue_size: Some(n as usize), ..acc }),
                None => Err(SettingsFault::QueueSizeNotANumber),
            }
        } else {
            Err(SettingsFault::InvalidKey(key))
        }
    }
}

/// The settings after the items in their order, or the fault of the first item
/// that is refused.
pub open spec fn apply_items(acc: SettingsModel, items: Seq<Seq<char>>) -> Result<
    SettingsModel,
    SettingsFault,
>
    decreases items.len(),
{
    if items.len() == 0 {
        Ok(acc)
    } else {
        match apply_item(acc, items[0]) {
            Err(fault) => Err(fault),
            Ok(next) => apply_items(next, items.drop_first()),
        }
    }
}

/// The settings that have been read stand only if they name a `url`.
pub open spec fn require_url(read: Result<SettingsModel, SettingsFault>) -> Result<
    SettingsModel,
    SettingsFault,
> {
    match read {
        Err(fault) => Err(fault),
        Ok(settings) => if settings.url is None {
            Err(SettingsFault::NoUrl)
        } else {
            Ok(settings)
        },
    }
}

/// What a connection string says: the items between the `;` are read in
/// their order, a later item overrides an earlier one with the same key, the
/// first item that is refused decides the fault, and a string without `url`
/// is refused last.
pub open spec fn parse_conn_string(conn: Seq<char>) -> Result<SettingsModel, SettingsFault> {
    require_url(apply_items(initial_settings(), split(conn, ';')))
}

/// Resolved settings of the shipping pipeline.
#[derive(Debug)]
pub struct SeqLoggerSettings {
    pub url: String,
    pub api_key: Option<String>,
    pub max_logs_flush_chunk: usize,
    pub flush_delay: Duration,
    pub queue_size: Option<usize>,
}

/// Settings while the items are being read.
struct SettingsDraft {
    url: Option<String>,
    api_key: Option<String>,
    max_logs_flush_chunk: usize,
    flush_delay: u64,
    queue_size: Option<usize>,
}

impl View for SettingsDraft {
    type V = SettingsModel;

    closed spec fn view(&self) -> SettingsModel {
        SettingsModel {
            url: self.url.deep_view(),
            api_key: self.api_key.deep_view(),
            max_logs_flush_chunk: self.max_logs_flush_chunk,
            flush_delay: self.flush_delay,
            queue_size: self.queue_size,
        }
    }
}

/// The index of the first `c` in `s`, or the length of `s` if there is none.
fn find_char(s: &[char], c: char) -> (index: usize)
    ensures
        index == first_index(s@, c),
        index <= s.len(),
{
    let mut i: usize = 0;
    while i < s.len() && s[i] != c
        invariant
            i <= s.len(),
            first_index(s@, c) == first_index_from(s@, c, i as int),
        decreases s.len() - i,
    {
        i += 1;
    }
    i
}

/// Reads a decimal number that is at most `max`.
fn parse_decimal(value: &[char], max: u64) -> (number: Option<u64>)
    ensures
        match number {
            Some(n) => parse_unsigned(value@, max as nat) == Some(n as nat),
            None => parse_unsigned(value@, max as nat) is None,
        },
{
    let start: usize = if value.len() > 0 && value[0] == '+' {
        1
    } else {
        0
    };
    let digits = slice_subrange(value, start, value.len());
    assert(digits@ == if value@.len() > 0 && value@[0] == '+' {
        value@.skip(1)
    } else {
        value@
    });
    if digits.len() == 0 {
        return None;
    }
    let mut acc: u64 = 0;
    let mut i: usize = 0;
    while i < digits.len()
        invariant
            i <= digits.len(),
            digits.len() > 0,
            digits@ == if value@.len() > 0 && value@[0] == '+' {
                value@.skip(1)
            } else {
                value@
            },
            all_digits(digits@.take(i as int)),
            acc == digits_value(digits@.take(i as int)),
            acc <= max,
        decreases digits.len() - i,
    {
        let c = digits[i];
        if c < '0' || c > '9' {
            assert(!is_digit(digits@[i as int]));
            return None;
        }
        let d: u64 = (c as u32 - '0' as u32) as u64;
        let ghost prefix = digits@.take(i as int + 1);
        assert(prefix.drop_last() == digits@.take(i as int));
        assert(prefix.last() == c);
        assert(digits_value(prefix) == acc * 10 + d);
        proof {
            lemma_digits_value_prefix(digits@, i as int + 1);
        }
        let next = match acc.checked_mul(10) {
            None => {
                return None;
            },
            Some(tens) => match tens.checked_add(d) {
                None => {
                    return None;
                },
                Some(sum) => sum,
            },
        };
        if next > max {
            return None;
        }
        acc = next;
        i += 1;
        assert forall|j: int| 0 <= j < i implies is_digit(#[trigger] digits@.take(i as int)[j]) by {
            if j < i - 1 {
                assert(digits@.take(i as int - 1)[j] == digits@[j]);
            }
        }
    }
    assert(digits@.take(i as int) == digits@);
    Some(acc)
}

impl SettingsDraft {
    /// Reads one item into the draft.
    fn apply(&mut self, item: &[char]) -> (outcome: Result<(), SettingsError>)
        ensures
            match outcome {
                Ok(()) => apply_item(old(self)@, item@) == Ok::<SettingsModel, SettingsFault>(
                    final(self)@,
                ),
                Err(e) => apply_item(old(self)@, item@) == Err::<SettingsModel, SettingsFault>(e@),
            },
    {
        let eq = find_char(item, '=');
        if eq >= item.len() {
            return Err(SettingsError::InvalidKeyValue(string_of(item)));
        }
        let key = slice_subrange(item, 0, eq);
        let value = slice_subrange(item, eq + 1, item.len());
        assert(key@ == item@.take(eq as int));
        assert(value@ == item@.skip(eq as int + 1));
        if chars_eq(key, chars_of("url").as_slice()) {
            self.url = Some(string_of(value));
            Ok(())
        } else if chars_eq(key, chars_of("apikey").as_slice()) {
            self.api_key = Some(string_of(value));
            Ok(())
        } else if chars_eq(key, chars_of("flushlogschunk").as_slice()) {
            match parse_decimal(value, usize::MAX as u64) {
                Some(n) => {
                    self.max_logs_flush_chunk = n as usize;
                    Ok(())
                },
                None => Err(SettingsError::FlushLogsChunkNotANumber),
            }
        } else if chars_eq(key, chars_of("flushdelay").as_slice()) {
            match parse_decimal(value, u64::MAX) {
                Some(n) => {
                    self.flush_delay = n;
                    Ok(())
                },
                None => Err(SettingsError::FlushDelayNotANumber),
            }
        } else if chars_eq(key, chars_of("queuesize").as_slice()) {
            match parse_decimal(value, usize::MAX as u64) {
                Some(n) => {
                    self.queue_size = Some(n as usize);
                    Ok(())
                },
                None => Err(SettingsError::QueueSizeNotANumber),
            }
        } else {
            Err(SettingsError::InvalidKey(string_of(key)))
        }
    }
}

impl SeqLoggerSettings {
    /// Whether these settings are the ones that `model` describes.
    pub open spec fn is_model(&self, model: SettingsModel) -> bool {
        &&& model.url == Some(self.url@)
        &&& model.api_key == self.api_key.deep_view()
        &&& model.max_logs_flush_chunk == self.max_logs_flush_chunk
        &&& self.flush_delay == duration_of_secs(model.flush_delay)
        &&& model.queue_size == self.queue_size
    }

    /// Whether `result` is what the connection string says: the settings that
    /// `parse_conn_string` gives where it accepts the string, and otherwise
    /// the fault it gives.
    pub open spec fn is_read_from(conn: Seq<char>, result: Result<Self, SettingsError>) -> bool {
        match result {
            Ok(settings) => parse_conn_string(conn) matches Ok(model) && settings.is_model(model),
            Err(e) => parse_conn_string(conn) == Err::<SettingsModel, SettingsFault>(e@),
        }
    }

    /// Asks `settings` for the connection string and reads the settings from
    /// it. Whatever the string is, the result is what that string says.
    pub fn read<S: SeqSettings>(settings: &S) -> (result: Result<Self, SettingsError>)
        ensures
            exists|conn: Seq<char>| Self::is_read_from(conn, result),
    {
        let conn_string = settings.get_conn_string();
        let result = Self::try_parse(conn_string.as_str());
        assert(Self::is_read_from(conn_string@, result));
        result
    }

    /// Reads the settings from a connection string. Succeeds exactly on the
    /// strings that `parse_conn_string` accepts, with the settings it gives;
    /// otherwise the error is the fault it gives.
    pub fn try_parse(conn_string: &str) -> (result: Result<Self, SettingsError>)
        ensures
            Self::is_read_from(conn_string@, result),
    {
        let chars = chars_of(conn_string);
        let mut draft = SettingsDraft {
            url: None,
            api_key: None,
            max_logs_flush_chunk: DEFAULT_FLUSH_CHUNK,
            flush_delay: DEFAULT_FLUSH_SLEEP,
            queue_size: None,
        };
        let mut rest: &[char] = chars.as_slice();
        let mut more = true;
        while more
            invariant
                more ==> parse_conn_string(conn_string@) == require_url(
                    apply_items(draft@, split(rest@, ';')),
                ),
                !more ==> parse_conn_string(conn_string@) == require_url(Ok(draft@)),
            decreases rest.len() + if more { 1nat } else { 0nat },
        {
            let end = find_char(rest, ';');
            let item = slice_subrange(rest, 0, end);
            let ghost items = split(rest@, ';');
            assert(items[0] == item@);
            match draft.apply(item) {
                Err(e) => {
                    return Err(e);
                },
                Ok(()) => {},
            }
            if end < rest.len() {
                assert(items.drop_first() == split(rest@.skip(end as int + 1), ';'));
                rest = slice_subrange(rest, end + 1, rest.len());
            } else {
                assert(items.drop_first() == Seq::<Seq<char>>::empty());
                assert(apply_items(draft@, items.drop_first()) == Ok::<
                    SettingsModel,
                    SettingsFault,
                >(draft@));
                more = false;
            }
        }
        match draft.url {
            None => Err(SettingsError::NoUrl),
            Some(url) => Ok(
                Self {
                    url,
                    api_key: draft.api_key,
                    max_logs_flush_chunk: draft.max_logs_flush_chunk,
                    flush_delay: Duration::from_secs(draft.flush_delay),
                    queue_size: draft.queue_size,
                },
            ),
        }
    }
}

/// Splits `key=value` at its first `=`. The text must hold a `=`.
pub fn spit_key_value(str: &str) -> (pair: (&str, &str))
    requires
        0 <= first_index(str@, '=') < str@.len(),
    ensures
        pair.0@ == str@.take(first_index(str@, '=')),
        pair.1@ == str@.skip(first_index(str@, '=') + 1),
{
    let chars = chars_of(str);
    let eq = find_char(chars.as_slice(), '=');
    let key = str.substring_char(0, eq);
    let value = str.substring_char(eq + 1, chars.len());
    (key, value)
}

} // verus!
