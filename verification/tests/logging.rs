use mrcp_synth::logging::{
    escape_percent, plugin_message, priority_for, LogLevel, LogPriority, Logger, LOG_NAME,
};

#[test]
fn escape_doubles_percent() {
    assert_eq!(escape_percent(b"100% done %s"), b"100%% done %%s".to_vec());
    assert_eq!(escape_percent(b""), Vec::<u8>::new());
    assert_eq!(escape_percent(b"%%"), b"%%%%".to_vec());
    assert_eq!(escape_percent(b"plain"), b"plain".to_vec());
}

#[test]
fn law_escaped_format_prints_text_concrete() {
    // Reading the escaped format as printf does gives back the text.
    let text = b"rate 50%, %d and %%".to_vec();
    let format = escape_percent(&text);
    let mut printed = Vec::new();
    let mut i = 0;
    while i < format.len() {
        if format[i] == b'%' {
            assert_eq!(format[i + 1], b'%');
            printed.push(b'%');
            i += 2;
        } else {
            printed.push(format[i]);
            i += 1;
        }
    }
    assert_eq!(printed, text);
}

#[test]
fn priorities() {
    assert_eq!(priority_for(LogLevel::Error), LogPriority::Error);
    assert_eq!(priority_for(LogLevel::Warn), LogPriority::Warning);
    assert_eq!(priority_for(LogLevel::Info), LogPriority::Notice);
    assert_eq!(priority_for(LogLevel::Debug), LogPriority::Info);
    assert_eq!(priority_for(LogLevel::Trace), LogPriority::Debug);
}

#[test]
fn logger_entry() {
    let logger = Logger;
    assert!(logger.enabled());
    let e = logger.entry(LogLevel::Info, "plugin::engine", "load 90%", Some("src/engine.rs"), Some(42));
    assert_eq!(e.priority, LogPriority::Notice);
    assert_eq!(e.file, "src/engine.rs");
    assert_eq!(e.line, 42);
    assert_eq!(e.format, b"[DG :: plugin::engine] load 90%%".to_vec());
    let e = logger.entry(LogLevel::Trace, "t", "m", None, None);
    assert_eq!(e.priority, LogPriority::Debug);
    assert_eq!(e.file, "");
    assert_eq!(e.line, 0);
    assert_eq!(e.format, b"[DG :: t] m".to_vec());
}

#[test]
fn logger_entry_line_wraps_like_a_cast() {
    let e = Logger.entry(LogLevel::Error, "t", "m", None, Some(u32::MAX));
    assert_eq!(e.line, -1);
}

#[test]
fn plugin_messages() {
    assert_eq!(LOG_NAME, "My-Plugin");
    assert_eq!(plugin_message("Engine destroy."), "[My-Plugin] Engine destroy.");
}

#[test]
fn logger_entry_non_ascii() {
    let e = Logger.entry(LogLevel::Warn, "t", "é 5%", Some("ü.rs"), Some(7));
    assert_eq!(e.priority, LogPriority::Warning);
    assert_eq!(e.file, "ü.rs");
    assert_eq!(e.format, "[DG :: t] é 5%%".as_bytes().to_vec());
}
