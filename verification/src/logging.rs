use vstd::prelude::*;

verus! {

/// The name of the plugin's log source.
pub const LOG_NAME: &'static str = "My-Plugin";

/// The byte `%`, which opens a directive in a printf format.
pub const PERCENT: u8 = 37u8;

/// The level of a log record.
#[derive(PartialEq, Eq, Structural, Clone, Copy, Debug)]
pub enum LogLevel {
    Error,
    Warn,
    Info,
    Debug,
    Trace,
}

/// The priority of a line in the server's log, from the most urgent.
#[derive(PartialEq, Eq, Structural, Clone, Copy, Debug)]
pub enum LogPriority {
    Emergency,
    Alert,
    Critical,
    Error,
    Warning,
    Notice,
    Info,
    Debug,
}

/// The server log priority of a record of level `level`: each level goes
/// one step down, information to a notice and tracing to debugging.
pub open spec fn priority_of(level: LogLevel) -> LogPriority {
    match level {
        LogLevel::Error => LogPriority::Error,
        LogLevel::Warn => LogPriority::Warning,
        LogLevel::Info => LogPriority::Notice,
        LogLevel::Debug => LogPriority::Info,
        LogLevel::Trace => LogPriority::Debug,
    }
}

/// `bytes` with every `%` doubled, so that a printf format made of it prints it.
pub open spec fn escape_percent_spec(bytes: Seq<u8>) -> Seq<u8>
    decreases bytes.len(),
{
    if bytes.len() == 0 {
        Seq::empty()
    } else {
        let head = if bytes[0] == PERCENT { seq![PERCENT, PERCENT] } else { seq![bytes[0]] };
        head + escape_percent_spec(bytes.drop_first())
    }
}

/// What printf prints for the format `format` given no arguments: every
/// byte as it is and `%%` as `%`; `None` when the format holds any other
/// directive, which would read an argument that is not there.
pub open spec fn printf_output(format: Seq<u8>) -> Option<Seq<u8>>
    decreases format.len(),
{
    if format.len() == 0 {
        Some(Seq::empty())
    } else if format[0] == PERCENT {
        if format.len() >= 2 && format[1] == PERCENT {
            match printf_output(format.skip(2)) {
                Some(rest) => Some(seq![PERCENT] + rest),
                None => None,
            }
        } else {
            None
        }
    } else {
        match printf_output(format.drop_first()) {
            Some(rest) => Some(seq![format[0]] + rest),
            None => None,
        }
    }
}

/// The text of a log line of the plugin: the record's target in brackets,
/// then its message.
pub open spec fn log_text(target: Seq<char>, message: Seq<char>) -> Seq<char> {
    "[DG :: "@ + target + "] "@ + message
}

/// A line for the server's log.
pub struct LogEntry {
    pub priority: LogPriority,
    /// The source file of the record, empty when unknown.
    pub file: String,
    /// The source line of the record, 0 when unknown.
    pub line: i32,
    /// The printf format that prints the line's text.
    pub format: Vec<u8>,
}

proof fn lemma_escape_concat(a: Seq<u8>, b: Seq<u8>)
    ensures
        escape_percent_spec(a + b) == escape_percent_spec(a) + escape_percent_spec(b),
    decreases a.len(),
{
    if a.len() == 0 {
        assert(a + b =~= b);
        assert(escape_percent_spec(a) + escape_percent_spec(b) =~= escape_percent_spec(b));
    } else {
        lemma_escape_concat(a.drop_first(), b);
        assert((a + b).drop_first() =~= a.drop_first() + b);
        assert((a + b)[0] == a[0]);
        let head = if a[0] == PERCENT { seq![PERCENT, PERCENT] } else { seq![a[0]] };
        assert(escape_percent_spec(a + b) =~= head + (escape_percent_spec(a.drop_first()) + escape_percent_spec(b)));
    }
}

/// A format made by doubling every `%` of some bytes prints exactly those
/// bytes: the server's logger, which reads a line as a printf format, shows
/// the line as it was written and reads no argument.
pub proof fn law_escaped_format_prints_text(bytes: Seq<u8>)
    ensures
        printf_output(escape_percent_spec(bytes)) == Some(bytes),
    decreases bytes.len(),
{
    if bytes.len() > 0 {
        let rest = bytes.drop_first();
        law_escaped_format_prints_text(rest);
        let f = escape_percent_spec(bytes);
        if bytes[0] == PERCENT {
            assert(f == seq![PERCENT, PERCENT] + escape_percent_spec(rest));
            assert(f.skip(2) =~= escape_percent_spec(rest));
            assert(f[0] == PERCENT && f[1] == PERCENT);
        } else {
            assert(f == seq![bytes[0]] + escape_percent_spec(rest));
            assert(f.drop_first() =~= escape_percent_spec(rest));
            assert(f[0] == bytes[0]);
        }
        assert(seq![bytes[0]] + rest =~= bytes);
    }
}

/// No character of `s` is NUL.
pub open spec fn no_nul(s: Seq<char>) -> bool {
    forall|i: int| 0 <= i < s.len() ==> #[trigger] s[i] != '\0'
}

/// No byte of `b` is zero.
pub open spec fn no_zero_byte(b: Seq<u8>) -> bool {
    forall|i: int| 0 <= i < b.len() ==> #[trigger] b[i] != 0u8
}

proof fn lemma_no_zero_concat(a: Seq<u8>, b: Seq<u8>)
    requires
        no_zero_byte(a),
        no_zero_byte(b),
    ensures
        no_zero_byte(a + b),
{
    assert forall|i: int| 0 <= i < (a + b).len() implies #[trigger] (a + b)[i] != 0u8 by {
        if i < a.len() {
            assert((a + b)[i] == a[i]);
        } else {
            assert((a + b)[i] == b[i - a.len()]);
        }
    }
}

proof fn lemma_no_nul_concat(a: Seq<char>, b: Seq<char>)
    requires
        no_nul(a),
        no_nul(b),
    ensures
        no_nul(a + b),
{
    assert forall|i: int| 0 <= i < (a + b).len() implies #[trigger] (a + b)[i] != '\0' by {
        if i < a.len() {
            assert((a + b)[i] == a[i]);
        } else {
            assert((a + b)[i] == b[i - a.len()]);
        }
    }
}

proof fn lemma_utf8_bytes_nonzero(v: u32)
    by (bit_vector)
    requires
        v != 0,
    ensures
        v <= 0x7F ==> (v & 0x7F) as u8 != 0u8,
        (0xC0u8 | ((v >> 6) & 0x1F) as u8) != 0u8,
        (0xE0u8 | ((v >> 12) & 0x0F) as u8) != 0u8,
        (0xF0u8 | ((v >> 18) & 0x7) as u8) != 0u8,
        (0x80u8 | (v & 0x3F) as u8) != 0u8,
        (0x80u8 | ((v >> 6) & 0x3F) as u8) != 0u8,
        (0x80u8 | ((v >> 12) & 0x3F) as u8) != 0u8,
{
}

/// The UTF-8 encoding of characters that are not NUL holds no zero byte.
proof fn lemma_utf8_no_zero_byte(chars: Seq<char>)
    requires
        no_nul(chars),
    ensures
        no_zero_byte(vstd::utf8::encode_utf8(chars)),
    decreases chars.len(),
{
    if chars.len() > 0 {
        let c = chars[0];
        let v = c as u32;
        assert(c != '\0');
        assert(v != 0) by {
            vstd::utf8::char_u32_cast(c, v);
            if v == 0 {
                vstd::utf8::char_u32_cast('\0', 0u32);
            }
        }
        lemma_utf8_bytes_nonzero(v);
        let head = vstd::utf8::encode_scalar(v);
        assert(no_zero_byte(head));
        assert forall|i: int| 0 <= i < chars.drop_first().len() implies #[trigger] chars.drop_first()[i] != '\0' by {
            assert(chars.drop_first()[i] == chars[i + 1]);
        }
        lemma_utf8_no_zero_byte(chars.drop_first());
        lemma_no_zero_concat(head, vstd::utf8::encode_utf8(chars.drop_first()));
    }
}

/// Doubling `%` brings in no zero byte.
proof fn lemma_escape_no_zero_byte(bytes: Seq<u8>)
    requires
        no_zero_byte(bytes),
    ensures
        no_zero_byte(escape_percent_spec(bytes)),
    decreases bytes.len(),
{
    if bytes.len() > 0 {
        let rest = bytes.drop_first();
        assert forall|i: int| 0 <= i < rest.len() implies #[trigger] rest[i] != 0u8 by {
            assert(rest[i] == bytes[i + 1]);
        }
        lemma_escape_no_zero_byte(rest);
        let head = if bytes[0] == PERCENT { seq![PERCENT, PERCENT] } else { seq![bytes[0]] };
        assert(bytes[0] != 0u8);
        assert(no_zero_byte(head));
        lemma_no_zero_concat(head, escape_percent_spec(rest));
    }
}

/// The text of a log line holds no NUL when its target and message hold none.
proof fn lemma_log_text_no_nul(target: Seq<char>, message: Seq<char>)
    requires
        no_nul(target),
        no_nul(message),
    ensures
        no_nul(log_text(target, message)),
{
    reveal_strlit("[DG :: ");
    reveal_strlit("] ");
    assert(no_nul("[DG :: "@));
    assert(no_nul("] "@));
    lemma_no_nul_concat("[DG :: "@, target);
    lemma_no_nul_concat("[DG :: "@ + target, "] "@);
    lemma_no_nul_concat("[DG :: "@ + target + "] "@, message);
}

/// What the server's log prints for a record is the whole record: the
/// target in brackets after `DG ::`, then the message, every byte of them.
pub proof fn law_log_line_prints_record(target: Seq<char>, message: Seq<char>)
    ensures
        printf_output(escape_percent_spec(vstd::utf8::encode_utf8(log_text(target, message))))
            == Some(vstd::utf8::encode_utf8("[DG :: "@ + target + "] "@ + message)),
{
    law_escaped_format_prints_text(vstd::utf8::encode_utf8(log_text(target, message)));
}

/// The printf format that prints `bytes`: every `%` doubled.
pub fn escape_percent(bytes: &[u8]) -> (format: Vec<u8>)
    ensures
        format@ == escape_percent_spec(bytes@),
{
    let mut format: Vec<u8> = Vec::new();
    let mut i: usize = 0;
    while i < bytes.len()
        invariant
            i <= bytes@.len(),
            format@ == escape_percent_spec(bytes@.take(i as int)),
        decreases bytes@.len() - i,
    {
        let b = bytes[i];
        proof {
            lemma_escape_concat(bytes@.take(i as int), seq![b]);
            assert(bytes@.take(i as int) + seq![b] =~= bytes@.take(i + 1));
            assert(seq![b].drop_first() =~= Seq::<u8>::empty());
            assert(escape_percent_spec(Seq::<u8>::empty()) =~= Seq::<u8>::empty());
            assert(escape_percent_spec(seq![b]) =~= (if b == PERCENT { seq![PERCENT, PERCENT] } else { seq![b] }));
        }
        if b == PERCENT {
            format.push(PERCENT);
            format.push(PERCENT);
        } else {
            format.push(b);
        }
        i = i + 1;
    }
    assert(bytes@.take(i as int) =~= bytes@);
    format
}

/// The server log priority of a record of level `level`.
pub fn priority_for(level: LogLevel) -> (p: LogPriority)
    ensures
        p == priority_of(level),
{
    match level {
        LogLevel::Error => LogPriority::Error,
        LogLevel::Warn => LogPriority::Warning,
        LogLevel::Info => LogPriority::Notice,
        LogLevel::Debug => LogPriority::Info,
        LogLevel::Trace => LogPriority::Debug,
    }
}

/// The message of the plugin's own log lines: its name in brackets, then `s`.
pub fn plugin_message(s: &str) -> (message: String)
    ensures
        message@ == "["@ + LOG_NAME@ + "] "@ + s@,
{
    let mut message = String::from_str("[");
    message.append(LOG_NAME);
    message.append("] ");
    message.append(s);
    message
}

/// The plugin's logger, which writes every record to the server's log.
pub struct Logger;

impl Logger {
    /// Every record is logged, whatever its level or target.
    pub fn enabled(&self) -> (b: bool)
        ensures
            b,
    {
        true
    }

    /// The line that a record of `level` from `target`, with text `message`,
    /// written at `file`:`line` where known, becomes in the server's log.
    /// The server takes the file name and the format as C strings, so none
    /// of them may hold a NUL; the file name and format then hold none.
    pub fn entry(&self, level: LogLevel, target: &str, message: &str, file: Option<&str>, line: Option<u32>) -> (e: LogEntry)
        requires
            no_nul(target@),
            no_nul(message@),
            file matches Some(f) ==> no_nul(f@),
        ensures
            no_nul(e.file@),
            no_zero_byte(e.format@),
            e.priority == priority_of(level),
            e.file@ == match file { Some(f) => f@, None => Seq::<char>::empty() },
            e.line == match line { Some(l) => l as i32, None => 0i32 },
            e.format@ == escape_percent_spec(vstd::utf8::encode_utf8(log_text(target@, message@))),
            e.format@ == escape_percent_spec(vstd::utf8::encode_utf8("[DG :: "@ + target@ + "] "@ + message@)),
            printf_output(e.format@) == Some(vstd::utf8::encode_utf8("[DG :: "@ + target@ + "] "@ + message@)),
    {
        let mut text = String::from_str("[DG :: ");
        text.append(target);
        text.append("] ");
        text.append(message);
        let format = escape_percent(text.as_str().as_bytes());
        proof {
            lemma_log_text_no_nul(target@, message@);
            lemma_utf8_no_zero_byte(text@);
            lemma_escape_no_zero_byte(vstd::utf8::encode_utf8(text@));
            law_log_line_prints_record(target@, message@);
        }
        let file_name = match file {
            Some(f) => String::from_str(f),
            None => String::new(),
        };
        let line_number: i32 = match line {
            Some(l) => l as i32,
            None => 0,
        };
        LogEntry { priority: priority_for(level), file: file_name, line: line_number, format }
    }
}

} // verus!
