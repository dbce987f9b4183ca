use colored::{Color, Colorize, Styles};
use quix::logi::{
    custom_log, ends_run, join_line, json_log, json_prettifier, log, normalize_message, space_out,
    syntax_parser, Flag, Level,
};

#[test]
fn level() {
    assert_eq!(
        Level::Debug.to_string(),
        "🔮 DBUG".bright_blue().to_string()
    );
    assert_eq!(Level::Info.to_string(), "📰 INFO".normal().to_string());
    assert_eq!(
        Level::Warn.to_string(),
        "💡 WARN".bright_yellow().to_string()
    );
    assert_eq!(
        Level::Success.to_string(),
        "🎉 YEEE".blink().bright_green().to_string()
    );
    assert_eq!(
        Level::Trace.to_string(),
        "🔧 TRCE".bright_black().to_string()
    );
    assert_eq!(Level::Help.to_string(), "💭 HELP".normal().to_string());
    assert_eq!(
        Level::Error.to_string(),
        format!("💥 {}", "F#CK".strikethrough())
            .bright_red()
            .to_string()
    );
    assert_eq!(Level::Fatal.to_string(), "😵 FATL".on_red().to_string());
}

#[test]
fn macros() {
    let time = "02:12:22";
    println!("{}", log(time, &Flag::Level(Level::Trace), format!("Trace message.")));
    println!("{}", log(time, &Flag::Level(Level::Debug), format!("Debug message.")));
    println!("{}", log(time, &Flag::Level(Level::Info), format!("Info message.")));
    println!("{}", log(time, &Flag::Level(Level::Success), format!("Success message.")));
    println!("{}", log(time, &Flag::Level(Level::Warn), format!("Warn message.")));
    println!("{}", log(time, &Flag::Level(Level::Error), format!("Error message.")));
    println!(
        "{}",
        log(time, &Flag::String("🧭 CSTM".to_string()), format!("Custom message."))
    );
}

#[test]
#[allow(deprecated)]
fn normalize() {
    let help = normalize_message("Help".to_string(), &Level::Help);
    let warn = normalize_message("Warn".to_string(), &Level::Warn);
    let trace = normalize_message("Trace".to_string(), &Level::Trace);

    println!("{} | {} | {}", help, warn, trace);

    assert!(help.style().contains(Styles::Italic));
    assert!(warn.style().contains(Styles::Bold));
    assert!(trace.style().contains(Styles::Dimmed));
}

#[test]
fn labels_are_the_plain_tags() {
    assert_eq!(Level::Debug.label(), "🔮 DBUG");
    assert_eq!(Level::Info.label(), "📰 INFO");
    assert_eq!(Level::Warn.label(), "💡 WARN");
    assert_eq!(Level::Success.label(), "🎉 YEEE");
    assert_eq!(Level::Trace.label(), "🔧 TRCE");
    assert_eq!(Level::Help.label(), "💭 HELP");
    assert_eq!(Level::Error.label(), "💥 F#CK");
    assert_eq!(Level::Fatal.label(), "😵 FATL");
}

#[test]
fn message_styles_match_the_level() {
    let error = normalize_message("e".to_string(), &Level::Error);
    assert_eq!(error, "e".bright_red().bold());
    let success = normalize_message("s".to_string(), &Level::Success);
    assert_eq!(success, "s".bright_green());
    let info = normalize_message("i".to_string(), &Level::Info);
    assert_eq!(info, "i".normal());
    let fatal = normalize_message("f".to_string(), &Level::Fatal);
    assert_eq!(fatal, "f".bold());
}

#[test]
fn leading_line_break_is_doubled() {
    assert_eq!(space_out("\nhello".to_string()), "\n\nhello");
    assert_eq!(space_out("hello".to_string()), "hello");
    assert_eq!(space_out(String::new()), "");
}

#[test]
fn line_parts_are_joined_with_bars() {
    assert_eq!(join_line("12:00:00", "TAG", "text"), "12:00:00 | TAG | text");
    assert_eq!(join_line("", "", ""), " |  | ");
}

#[test]
fn formatted_line_matches_its_parts() {
    let line = log("02:12:22", &Flag::Level(Level::Warn), "careful".to_string());
    let expected = format!(
        "{} | {} | {}",
        "02:12:22".dimmed(),
        "💡 WARN".bright_yellow(),
        "careful".bright_yellow().bold()
    );
    assert_eq!(line, expected);
    let custom = log("02:12:22", &Flag::String("🧭 CSTM".to_string()), "x".to_string());
    assert_eq!(custom, format!("{} | {} | {}", "02:12:22".dimmed(), "🧭 CSTM", "x"));
}

#[test]
fn only_fatal_ends_the_run() {
    assert!(ends_run(&Level::Fatal));
    assert!(!ends_run(&Level::Error));
    assert!(!ends_run(&Level::Info));
}

trait Named {
    fn name(&self) -> &'static str;
}

impl Named for String {
    fn name(&self) -> &'static str {
        "alloc::string::String"
    }
}

fn type_of<T: Named>(value: T) -> &'static str {
    value.name()
}

fn without_escapes(text: &str) -> String {
    let mut out = String::new();
    let mut chars = text.chars();
    while let Some(c) = chars.next() {
        if c == '\u{1b}' {
            for d in chars.by_ref() {
                if d == 'm' {
                    break;
                }
            }
        } else {
            out.push(c);
        }
    }
    out
}

#[test]
fn json() {
    let json = "{\"message\":\"Hello, world!\"}";

    let pretty_json = json_prettifier(json);
    println!("JSON: {}", pretty_json);

    assert_ne!(json, pretty_json);
}

#[test]
fn syntax() {
    let message = "Lorem ipsum dolor sit amet consectetur adipiscing elit:\n{\"foo\":{\"bar\":\"\",\"baz\":0}}\nSunt in culpa qui officia deserunt mollit anim id est laborum.";

    let parsed_message = syntax_parser(message);
    println!("Message: {}", parsed_message);

    assert!(type_of(parsed_message).contains("String"));
}

#[test]
fn json_is_printed_on_lines_of_its_own() {
    let pretty = json_prettifier("{\"b\":[1,2],\"a\":{\"c\":null}}");
    assert_eq!(
        without_escapes(&pretty),
        "{\n  \"a\": {\n    \"c\": null\n  },\n  \"b\": [\n    1,\n    2\n  ]\n}"
    );
    assert_eq!(json_prettifier("not json"), "not json");
    assert_eq!(json_prettifier("{broken"), "{broken");
    assert_eq!(json_prettifier(""), "");
}

#[test]
fn groups_in_a_message_are_prettified_in_place() {
    let parsed = syntax_parser("before {\"a\":1} between {not json} after {\"b\":{}}");
    assert_eq!(
        without_escapes(&parsed),
        "before {\n  \"a\": 1\n} between {not json} after {\n  \"b\": {}\n}"
    );
    assert_eq!(syntax_parser("no braces at all"), "no braces at all");
    assert_eq!(syntax_parser("open { only"), "open { only");
    assert_eq!(syntax_parser("} close { x"), "} close { x");
    assert_eq!(syntax_parser(""), "");
}

#[test]
fn custom_and_json_lines_have_their_tags() {
    let line = custom_log("02:12:22", "🧭 CSTM".to_string(), "Custom message.".to_string());
    assert_eq!(
        line,
        format!("{} | {} | {}", "02:12:22".dimmed(), "🧭 CSTM", "Custom message.")
    );
    let entry = json_log("02:12:22", "nope");
    assert_eq!(entry, format!("{} | 📃 JSON | Data: \n\nnope\n", "02:12:22".dimmed()));
    let pretty = json_log("02:12:22", "{\"a\":1}");
    assert_eq!(
        without_escapes(&pretty),
        format!("{} | 📃 JSON | Data: \n\n{{\n  \"a\": 1\n}}\n", without_escapes(&"02:12:22".dimmed().to_string()))
    );
}

#[test]
fn json_in_a_log_line_is_prettified() {
    let line = log("02:12:22", &Flag::Level(Level::Info), "got {\"a\":1}".to_string());
    assert_eq!(
        without_escapes(&line),
        format!("{} | 📰 INFO | got {{\n  \"a\": 1\n}}", "02:12:22")
    );
}

#[test]
fn tags_hold_their_labels_whatever_the_terminal() {
    assert_eq!(Level::Info.to_string(), "📰 INFO");
    assert_eq!(Level::Help.to_string(), "💭 HELP");
    for level in [Level::Debug, Level::Warn, Level::Success, Level::Trace, Level::Fatal] {
        assert!(level.to_string().contains(level.label()));
    }
}

#[test]
fn normalized_message_keeps_its_text() {
    for level in [
        Level::Success,
        Level::Trace,
        Level::Debug,
        Level::Info,
        Level::Help,
        Level::Warn,
        Level::Error,
        Level::Fatal,
    ] {
        let painted = normalize_message("line one\nline two".to_string(), &level);
        assert_eq!(&*painted, "line one\nline two");
    }
    assert!(normalize_message("m".to_string(), &Level::Debug).is_plain());
    assert!(normalize_message("m".to_string(), &Level::Info).is_plain());
    assert!(!normalize_message("m".to_string(), &Level::Warn).is_plain());
}

#[test]
fn each_level_sets_one_style_at_most() {
    let styles = [Styles::Bold, Styles::Dimmed, Styles::Italic, Styles::Blink, Styles::Strikethrough];
    let expected = [
        (Level::Success, None),
        (Level::Trace, Some(Styles::Dimmed)),
        (Level::Debug, None),
        (Level::Info, None),
        (Level::Help, Some(Styles::Italic)),
        (Level::Warn, Some(Styles::Bold)),
        (Level::Error, Some(Styles::Bold)),
        (Level::Fatal, Some(Styles::Bold)),
    ];
    for (level, set) in expected {
        let painted = normalize_message("m".to_string(), &level);
        for style in styles {
            assert_eq!(painted.style.contains(style), set == Some(style));
        }
    }
}

#[test]
fn each_level_has_its_colour() {
    let expected = [
        (Level::Success, Some(Color::BrightGreen)),
        (Level::Trace, None),
        (Level::Debug, None),
        (Level::Info, None),
        (Level::Help, None),
        (Level::Warn, Some(Color::BrightYellow)),
        (Level::Error, Some(Color::BrightRed)),
        (Level::Fatal, None),
    ];
    for (level, colour) in expected {
        let painted = normalize_message("m".to_string(), &level);
        assert_eq!(painted.fgcolor, colour);
        assert_eq!(painted.bgcolor, None);
    }
}

#[test]
fn error_tag_holds_its_two_parts_in_order() {
    let tag = without_escapes(&Level::Error.to_string());
    assert_eq!(tag, "💥 F#CK");
    let raw = Level::Error.to_string();
    let head = raw.find("💥 ").unwrap();
    let word = raw.find("F#CK").unwrap();
    assert!(head + "💥 ".len() <= word);
}
