//! Log lines: the levels, their tags, and how a line is put together. The
//! colours come from the `colored` crate, which decides by the terminal
//! whether any escape code is written.

use vstd::prelude::*;
use crate::json::{json_pretty_text, pretty_json};
use crate::syntax::{
    find_groups, groups_from, lemma_spliced_identity, ordered, spans_view, splice, spliced,
    texts_view,
};
use crate::text::{chars_of, starts_with, string_of_range};

verus! {

#[verifier::external_type_specification]
#[verifier::external_body]
pub struct ExColoredString(colored::ColoredString);

/// The level of a log line.
#[derive(Debug, Clone, Copy, PartialEq, Eq, Structural)]
pub enum Level {
    Success,
    Trace,
    Debug,
    Info,
    Help,
    Warn,
    Error,
    Fatal,
}

/// The tag of a log line: one of the levels, or a text of the caller's.
#[derive(Debug, Clone)]
pub enum Flag {
    Level(Level),
    String(String),
}

/// The tag of a level, without colour.
pub open spec fn level_label(level: Level) -> Seq<char> {
    match level {
        Level::Debug => "🔮 DBUG"@,
        Level::Info => "📰 INFO"@,
        Level::Warn => "💡 WARN"@,
        Level::Success => "🎉 YEEE"@,
        Level::Trace => "🔧 TRCE"@,
        Level::Help => "💭 HELP"@,
        Level::Error => "💥 F#CK"@,
        Level::Fatal => "😵 FATL"@,
    }
}

/// No character of `text` is the escape character that opens a terminal
/// code.
pub open spec fn escape_free(text: Seq<char>) -> bool {
    forall|k: int| 0 <= k < text.len() ==> text[k] != '\u{1b}'
}

/// `ColoredString::from`: the text without colour or style.
#[verifier::external_body]
pub(crate) fn paint_plain(text: &str) -> (r: colored::ColoredString)
    ensures
        colored_text(r) == text@,
        colored_plain(r),
        colored_fg(r) is None,
        colored_bg(r) is None,
        forall|mark: Mark| !colored_marked(r, mark),
{
    colored::ColoredString::from(text)
}

/// `Colorize::bright_blue`: the same text, in bright blue.
#[verifier::external_body]
pub(crate) fn paint_bright_blue(text: colored::ColoredString) -> (r: colored::ColoredString)
    ensures
        colored_text(r) == colored_text(text),
        marked_as(r, text, None),
        tinted_as(r, text, Some(Paint::BrightBlue), None),
{
    colored::Colorize::bright_blue(text)
}

/// `Colorize::bright_yellow`: the same text, in bright yellow.
#[verifier::external_body]
pub(crate) fn paint_bright_yellow(text: colored::ColoredString) -> (r: colored::ColoredString)
    ensures
        colored_text(r) == colored_text(text),
        marked_as(r, text, None),
        tinted_as(r, text, Some(Paint::BrightYellow), None),
{
    colored::Colorize::bright_yellow(text)
}

/// `Colorize::bright_green`: the same text, in bright green.
#[verifier::external_body]
pub(crate) fn paint_bright_green(text: colored::ColoredString) -> (r: colored::ColoredString)
    ensures
        colored_text(r) == colored_text(text),
        marked_as(r, text, None),
        tinted_as(r, text, Some(Paint::BrightGreen), None),
{
    colored::Colorize::bright_green(text)
}

/// `Colorize::bright_black`: the same text, in bright black.
#[verifier::external_body]
pub(crate) fn paint_bright_black(text: colored::ColoredString) -> (r: colored::ColoredString)
    ensures
        colored_text(r) == colored_text(text),
        marked_as(r, text, None),
        tinted_as(r, text, Some(Paint::BrightBlack), None),
{
    colored::Colorize::bright_black(text)
}

/// `Colorize::bright_red`: the same text, in bright red.
#[verifier::external_body]
pub(crate) fn paint_bright_red(text: colored::ColoredString) -> (r: colored::ColoredString)
    ensures
        colored_text(r) == colored_text(text),
        marked_as(r, text, None),
        tinted_as(r, text, Some(Paint::BrightRed), None),
{
    colored::Colorize::bright_red(text)
}

/// `Colorize::on_red`: the same text, on red.
#[verifier::external_body]
pub(crate) fn paint_on_red(text: colored::ColoredString) -> (r: colored::ColoredString)
    ensures
        colored_text(r) == colored_text(text),
        marked_as(r, text, None),
        tinted_as(r, text, None, Some(Paint::Red)),
{
    colored::Colorize::on_red(text)
}

/// `Colorize::blink`: the same text, blinking.
#[verifier::external_body]
pub(crate) fn paint_blink(text: colored::ColoredString) -> (r: colored::ColoredString)
    ensures
        colored_text(r) == colored_text(text),
        marked_as(r, text, Some(Mark::Blink)),
        tinted_as(r, text, None, None),
{
    colored::Colorize::blink(text)
}

/// `Colorize::strikethrough`: the same text, struck through.
#[verifier::external_body]
pub(crate) fn paint_strikethrough(text: colored::ColoredString) -> (r: colored::ColoredString)
    ensures
        colored_text(r) == colored_text(text),
        marked_as(r, text, Some(Mark::Strikethrough)),
        tinted_as(r, text, None, None),
{
    colored::Colorize::strikethrough(text)
}

/// `Colorize::bold`: the same text, in bold.
#[verifier::external_body]
pub(crate) fn paint_bold(text: colored::ColoredString) -> (r: colored::ColoredString)
    ensures
        colored_text(r) == colored_text(text),
        marked_as(r, text, Some(Mark::Bold)),
        tinted_as(r, text, None, None),
{
    colored::Colorize::bold(text)
}

/// `Colorize::dimmed`: the same text, dimmed.
#[verifier::external_body]
pub(crate) fn paint_dimmed(text: colored::ColoredString) -> (r: colored::ColoredString)
    ensures
        colored_text(r) == colored_text(text),
        marked_as(r, text, Some(Mark::Dimmed)),
        tinted_as(r, text, None, None),
{
    colored::Colorize::dimmed(text)
}

/// `Colorize::italic`: the same text, in italics.
#[verifier::external_body]
pub(crate) fn paint_italic(text: colored::ColoredString) -> (r: colored::ColoredString)
    ensures
        colored_text(r) == colored_text(text),
        marked_as(r, text, Some(Mark::Italic)),
        tinted_as(r, text, None, None),
{
    colored::Colorize::italic(text)
}

/// The `Display` of a `ColoredString`. A text without colour or style is
/// written as it is. Any other text is written as it is too, or, as the
/// terminal decides, behind the code of its colour and style and in front
/// of the reset code, with the first code repeated after every reset code
/// that the text itself holds.
#[verifier::external_body]
pub(crate) fn painted_text(text: &colored::ColoredString) -> (r: String)
    ensures
        colored_plain(*text) ==> r@ == colored_text(*text),
        printed(r@, colored_text(*text)),
{
    format!("{}", text)
}

/// A `ColoredString` as it is printed.
pub(crate) fn shown(text: &colored::ColoredString) -> (r: String)
    ensures
        colored_plain(*text) ==> r@ == colored_text(*text),
        printed(r@, colored_text(*text)),
        escape_free(colored_text(*text)) ==> framed(r@, colored_text(*text)),
{
    let r = painted_text(text);
    proof {
        if escape_free(colored_text(*text)) {
            lemma_printed_is_framed(r@, colored_text(*text));
        }
    }
    r
}

impl Level {
    /// The tag of this level as it is printed. The two tags without colour
    /// come out as they are, a tag in one colour as it is or between that
    /// colour's codes. The error tag, painted twice, holds its two parts in
    /// order, whatever codes stand around and between them.
    pub fn to_string(&self) -> (r: String)
        ensures
            *self == Level::Info || *self == Level::Help ==> r@ == level_label(*self),
            *self != Level::Error ==> framed(r@, level_label(*self)),
            *self == Level::Error ==> in_order(r@, "💥 "@, "F#CK"@),
    {
        proof {
            lemma_labels_escape_free();
        }
        match self {
            Level::Debug => shown(&paint_bright_blue(paint_plain("🔮 DBUG"))),
            Level::Info => shown(&paint_plain("📰 INFO")),
            Level::Warn => shown(&paint_bright_yellow(paint_plain("💡 WARN"))),
            Level::Success => shown(&paint_bright_green(paint_blink(paint_plain("🎉 YEEE")))),
            Level::Trace => shown(&paint_bright_black(paint_plain("🔧 TRCE"))),
            Level::Help => shown(&paint_plain("💭 HELP")),
            Level::Error => {
                let struck = shown(&paint_strikethrough(paint_plain("F#CK")));
                let mut tag = String::from_str("💥 ");
                tag.append(struck.as_str());
                let r = shown(&paint_bright_red(paint_plain(tag.as_str())));
                proof {
                    reveal_strlit("💥 ");
                    reveal_strlit("F#CK");
                    lemma_twice_painted(r@, "💥 "@, struck@, "F#CK"@);
                }
                r
            },
            Level::Fatal => shown(&paint_on_red(paint_plain("😵 FATL"))),
        }
    }
}

/// `text` with `before` in front of it and `after` behind it.
pub open spec fn frame(before: Seq<char>, text: Seq<char>, after: Seq<char>) -> Seq<char> {
    before + text + after
}

/// The text that a `ColoredString` holds, without its colour and style:
/// what its `Deref` gives.
pub uninterp spec fn colored_text(text: colored::ColoredString) -> Seq<char>;

/// The message in the colour and style of its level. The text is the
/// message's own, whatever the level; at the debug and info levels it has
/// no colour and no style, at the others the colour and the one style of
/// the level.
pub fn normalize_message(message: String, level: &Level) -> (r: colored::ColoredString)
    ensures
        colored_text(r) == message@,
        *level == Level::Debug || *level == Level::Info ==> colored_plain(r),
        colored_fg(r) == message_paint(*level),
        colored_bg(r) is None,
        forall|mark: Mark| colored_marked(r, mark) == (message_mark(*level) == Some(mark)),
{
    let plain = paint_plain(message.as_str());
    match level {
        Level::Debug => plain,
        Level::Info => plain,
        Level::Warn => paint_bold(paint_bright_yellow(plain)),
        Level::Error => paint_bold(paint_bright_red(plain)),
        Level::Trace => paint_dimmed(plain),
        Level::Help => paint_italic(plain),
        Level::Success => paint_bright_green(plain),
        Level::Fatal => paint_bold(plain),
    }
}

/// A colour of a text: one of those that the library sets, or another.
#[derive(Debug, Clone, Copy, PartialEq, Eq, Structural)]
pub enum Paint {
    BrightBlue,
    BrightYellow,
    BrightGreen,
    BrightBlack,
    BrightRed,
    Red,
    Other,
}

/// The colour of the text of a `ColoredString`, its field `fgcolor`.
pub uninterp spec fn colored_fg(text: colored::ColoredString) -> Option<Paint>;

/// The colour behind the text of a `ColoredString`, its field `bgcolor`.
pub uninterp spec fn colored_bg(text: colored::ColoredString) -> Option<Paint>;

/// `after` has the colours of `before`, but for those that are given.
pub open spec fn tinted_as(
    after: colored::ColoredString,
    before: colored::ColoredString,
    fg: Option<Paint>,
    bg: Option<Paint>,
) -> bool {
    &&& colored_fg(after) == if fg is Some { fg } else { colored_fg(before) }
    &&& colored_bg(after) == if bg is Some { bg } else { colored_bg(before) }
}

/// The colour of a message at a level.
pub open spec fn message_paint(level: Level) -> Option<Paint> {
    match level {
        Level::Warn => Some(Paint::BrightYellow),
        Level::Error => Some(Paint::BrightRed),
        Level::Success => Some(Paint::BrightGreen),
        _ => None,
    }
}

/// The styles that the library sets on a text.
#[derive(Debug, Clone, Copy, PartialEq, Eq, Structural)]
pub enum Mark {
    Bold,
    Dimmed,
    Italic,
    Blink,
    Strikethrough,
}

/// What `Style::contains` gives for the style of a `ColoredString` and one
/// mark: whether that style is switched on.
pub uninterp spec fn colored_marked(text: colored::ColoredString, mark: Mark) -> bool;

/// `after` has the styles of `before`, and `added` beside them.
pub open spec fn marked_as(
    after: colored::ColoredString,
    before: colored::ColoredString,
    added: Option<Mark>,
) -> bool {
    forall|mark: Mark|
        #[trigger] colored_marked(after, mark) == (colored_marked(before, mark) || added == Some(
            mark,
        ))
}

/// The style of a message at a level.
pub open spec fn message_mark(level: Level) -> Option<Mark> {
    match level {
        Level::Warn => Some(Mark::Bold),
        Level::Error => Some(Mark::Bold),
        Level::Fatal => Some(Mark::Bold),
        Level::Trace => Some(Mark::Dimmed),
        Level::Help => Some(Mark::Italic),
        _ => None,
    }
}

/// What `ColoredString::is_plain` gives: whether neither a colour nor a
/// style is set.
pub uninterp spec fn colored_plain(text: colored::ColoredString) -> bool;

/// `printed` holds `text` as it is: alone, or with something in front of it
/// and behind it.
pub open spec fn framed(printed: Seq<char>, text: Seq<char>) -> bool {
    exists|before: Seq<char>, after: Seq<char>| printed == #[trigger] frame(before, text, after)
}

/// The code that ends every colour and style.
pub open spec fn reset_code() -> Seq<char> {
    seq!['\u{1b}', '[', '0', 'm']
}

/// A text as it stands inside a coloured text: after every reset code that
/// it holds, `style` is switched on again.
pub open spec fn recoloured(text: Seq<char>, style: Seq<char>) -> Seq<char>
    decreases text.len(),
{
    if text.len() == 0 {
        Seq::empty()
    } else if starts_with(text, reset_code()) {
        reset_code() + style + recoloured(text.subrange(4, text.len() as int), style)
    } else {
        seq![text[0]] + recoloured(text.drop_first(), style)
    }
}

/// A text behind the code `style` and in front of the reset code.
pub open spec fn wrapped(style: Seq<char>, text: Seq<char>) -> Seq<char> {
    style + recoloured(text, style) + reset_code()
}

/// `shown` is `text` as a terminal gets it: as it is, or behind some code
/// and in front of the reset code.
pub open spec fn printed(shown: Seq<char>, text: Seq<char>) -> bool {
    shown == text || exists|style: Seq<char>| shown == #[trigger] wrapped(style, text)
}

/// Two texts with something around and between them.
pub open spec fn pieces(
    a: Seq<char>,
    first: Seq<char>,
    b: Seq<char>,
    second: Seq<char>,
    c: Seq<char>,
) -> Seq<char> {
    a + first + b + second + c
}

/// `shown` holds `first` and, behind it, `second`, both as they are.
pub open spec fn in_order(shown: Seq<char>, first: Seq<char>, second: Seq<char>) -> bool {
    exists|a: Seq<char>, b: Seq<char>, c: Seq<char>|
        shown == #[trigger] pieces(a, first, b, second, c)
}

/// No character of `text` is one of the four that make up the reset code.
pub open spec fn code_free(text: Seq<char>) -> bool {
    forall|k: int|
        0 <= k < text.len() ==> text[k] != '\u{1b}' && text[k] != '[' && text[k] != '0' && text[k]
            != 'm'
}

/// A text without an escape character stays as it is in front of any text
/// inside a coloured text.
pub proof fn lemma_recoloured_prefix(head: Seq<char>, rest: Seq<char>, style: Seq<char>)
    requires
        escape_free(head),
    ensures
        recoloured(head + rest, style) == head + recoloured(rest, style),
    decreases head.len(),
{
    let text = head + rest;
    if head.len() == 0 {
        assert(text =~= rest);
        assert(head + recoloured(rest, style) =~= recoloured(rest, style));
    } else {
        assert(text[0] == head[0]);
        if starts_with(text, reset_code()) {
            assert(text.subrange(0, 4)[0] == reset_code()[0]);
        }
        assert(text.drop_first() =~= head.drop_first() + rest);
        lemma_recoloured_prefix(head.drop_first(), rest, style);
        assert(seq![text[0]] + (head.drop_first() + recoloured(rest, style)) =~= head
            + recoloured(rest, style));
    }
}

/// A text without any character of the reset code stays as it is wherever
/// it stands inside a coloured text.
pub proof fn lemma_recoloured_keeps(
    before: Seq<char>,
    word: Seq<char>,
    after: Seq<char>,
    style: Seq<char>,
)
    requires
        code_free(word),
    ensures
        framed(recoloured(before + word + after, style), word),
    decreases before.len(),
{
    let text = before + word + after;
    let out = recoloured(text, style);
    if word.len() == 0 {
        assert(out =~= frame(out, word, Seq::empty()));
    } else if before.len() == 0 {
        assert(text =~= word + after);
        lemma_recoloured_prefix(word, after, style);
        assert(out =~= frame(Seq::empty(), word, recoloured(after, style)));
    } else if starts_with(text, reset_code()) {
        if before.len() < 4 {
            let k = before.len() as int;
            assert(text[k] == word[0]);
            assert(text.subrange(0, 4)[k] == reset_code()[k]);
        }
        let rest = text.subrange(4, text.len() as int);
        assert(rest =~= before.subrange(4, before.len() as int) + word + after);
        lemma_recoloured_keeps(before.subrange(4, before.len() as int), word, after, style);
        let inner = recoloured(rest, style);
        let (x, z) = choose|x: Seq<char>, z: Seq<char>| inner == #[trigger] frame(x, word, z);
        assert(out =~= frame(reset_code() + style + x, word, z));
    } else {
        assert(text.drop_first() =~= before.drop_first() + word + after);
        lemma_recoloured_keeps(before.drop_first(), word, after, style);
        let inner = recoloured(text.drop_first(), style);
        let (x, z) = choose|x: Seq<char>, z: Seq<char>| inner == #[trigger] frame(x, word, z);
        assert(out =~= frame(seq![text[0]] + x, word, z));
    }
}

/// A text without an escape character is printed as it is, alone or
/// between two codes.
pub proof fn lemma_printed_is_framed(shown: Seq<char>, text: Seq<char>)
    requires
        printed(shown, text),
        escape_free(text),
    ensures
        framed(shown, text),
{
    if shown == text {
        assert(shown =~= frame(Seq::empty(), text, Seq::empty()));
    } else {
        let style = choose|style: Seq<char>| shown == #[trigger] wrapped(style, text);
        lemma_recoloured_prefix(text, Seq::empty(), style);
        assert(text + Seq::<char>::empty() =~= text);
        assert(recoloured(Seq::<char>::empty(), style) =~= Seq::<char>::empty());
        assert(shown =~= frame(style, text, reset_code()));
    }
}

/// A word that is printed, put behind a head and printed again, still
/// stands behind the head, both as they are.
pub proof fn lemma_twice_painted(
    shown: Seq<char>,
    head: Seq<char>,
    inner: Seq<char>,
    word: Seq<char>,
)
    requires
        printed(inner, word),
        printed(shown, head + inner),
        escape_free(head),
        code_free(word),
    ensures
        in_order(shown, head, word),
{
    assert(escape_free(word));
    lemma_printed_is_framed(inner, word);
    let (y, z) = choose|y: Seq<char>, z: Seq<char>| inner == #[trigger] frame(y, word, z);
    if shown == head + inner {
        assert(shown =~= pieces(Seq::empty(), head, y, word, z));
    } else {
        let style = choose|style: Seq<char>| shown == #[trigger] wrapped(style, head + inner);
        lemma_recoloured_prefix(head, inner, style);
        assert(inner =~= y + word + z);
        lemma_recoloured_keeps(y, word, z, style);
        let again = recoloured(inner, style);
        let (x2, z2) = choose|x2: Seq<char>, z2: Seq<char>| again == #[trigger] frame(x2, word, z2);
        assert(shown =~= pieces(style, head, x2, word, z2 + reset_code()));
    }
}

/// No tag holds an escape character.
pub proof fn lemma_labels_escape_free()
    ensures
        forall|level: Level| escape_free(#[trigger] level_label(level)),
{
    reveal_strlit("🔮 DBUG");
    reveal_strlit("📰 INFO");
    reveal_strlit("💡 WARN");
    reveal_strlit("🎉 YEEE");
    reveal_strlit("🔧 TRCE");
    reveal_strlit("💭 HELP");
    reveal_strlit("💥 F#CK");
    reveal_strlit("😵 FATL");
}

impl Level {
    /// The tag of this level, without colour.
    pub fn label(&self) -> (r: &'static str)
        ensures
            r@ == level_label(*self),
    {
        match self {
            Level::Debug => "🔮 DBUG",
            Level::Info => "📰 INFO",
            Level::Warn => "💡 WARN",
            Level::Success => "🎉 YEEE",
            Level::Trace => "🔧 TRCE",
            Level::Help => "💭 HELP",
            Level::Error => "💥 F#CK",
            Level::Fatal => "😵 FATL",
        }
    }
}

/// A message as it is printed: one that opens with a line break gets a
/// second one in front.
pub open spec fn spaced(message: Seq<char>) -> Seq<char> {
    if message.len() > 0 && message[0] == '\n' {
        seq!['\n'] + message
    } else {
        message
    }
}

/// A log line: time, tag and message, set apart by bars.
pub open spec fn line_of(date: Seq<char>, tag: Seq<char>, message: Seq<char>) -> Seq<char> {
    date + " | "@ + tag + " | "@ + message
}

/// A message with a second line break in front where it opens with one.
pub fn space_out(message: String) -> (r: String)
    ensures
        r@ == spaced(message@),
{
    let opens_with_break = message.as_str().unicode_len() > 0 && message.as_str().get_char(0)
        == '\n';
    if opens_with_break {
        let mut out = String::new();
        out.push('\n');
        out.append(message.as_str());
        assert(out@ =~= seq!['\n'] + message@);
        out
    } else {
        message
    }
}

/// `ToColoredJson::to_colored_json_with_styler` of `colored_json`, with keys
/// in red, strings in green, numbers in yellow, object brackets in magenta
/// and array brackets in cyan, and with colour on where standard output is
/// a terminal. Nothing for a text that is no JSON document.
#[verifier::external_body]
pub(crate) fn paint_json(text: &str) -> Option<String> {
    let styler = colored_json::Styler {
        key: colored_json::Style::new(colored_json::Color::Red),
        string_value: colored_json::Style::new(colored_json::Color::Green),
        integer_value: colored_json::Style::new(colored_json::Color::Yellow),
        float_value: colored_json::Style::new(colored_json::Color::Yellow),
        object_brackets: colored_json::Style::new(colored_json::Color::Magenta),
        array_brackets: colored_json::Style::new(colored_json::Color::Cyan),
        ..Default::default()
    };
    let mode = colored_json::ColorMode::default().eval();
    colored_json::ToColoredJson::to_colored_json_with_styler(text, mode, styler).ok()
}

/// Puts a line together from its three parts as they are.
pub fn join_line(date: &str, tag: &str, message: &str) -> (r: String)
    ensures
        r@ == line_of(date@, tag@, message@),
{
    let mut line = String::from_str(date);
    line.append(" | ");
    line.append(tag);
    line.append(" | ");
    line.append(message);
    line
}

/// The part of `s` that group `k` covers.
pub open spec fn group_text(s: Seq<char>, groups: Seq<(int, int)>, k: int) -> Seq<char> {
    s.subrange(groups[k].0, groups[k].1)
}

/// No brace group of `s` is a JSON document.
pub open spec fn no_json_group(s: Seq<char>) -> bool {
    forall|k: int|
        0 <= k < groups_from(s, 0).len() ==> json_pretty_text(
            #[trigger] group_text(s, groups_from(s, 0), k),
        ) is None
}

/// A JSON document in pretty print, coloured where the terminal takes
/// colour. A text that is no JSON document comes back as it is.
pub fn json_prettifier(message: &str) -> (r: String)
    ensures
        json_pretty_text(message@) is None ==> r@ == message@,
{
    match pretty_json(message) {
        Some(pretty) => match paint_json(pretty.as_str()) {
            Some(painted) => painted,
            None => pretty,
        },
        None => String::from_str(message),
    }
}

/// `parsed` is `message` with each of its brace groups replaced: a group
/// that is no JSON document by itself, any other by some text.
pub open spec fn parsed_from(parsed: Seq<char>, message: Seq<char>) -> bool {
    exists|replacements: Seq<Seq<char>>|
        {
            &&& replacements.len() == groups_from(message, 0).len()
            &&& parsed == #[trigger] spliced(message, groups_from(message, 0), replacements)
            &&& forall|k: int|
                0 <= k < replacements.len() && json_pretty_text(
                    group_text(message, groups_from(message, 0), k),
                ) is None ==> #[trigger] replacements[k] == group_text(
                    message,
                    groups_from(message, 0),
                    k,
                )
        }
}

/// The message with each of its brace groups run through
/// `json_prettifier`: the leftmost group first, no group inside another.
/// The text between the groups stays as it is, and so does a group that is
/// no JSON document.
pub fn syntax_parser(message: &str) -> (r: String)
    ensures
        parsed_from(r@, message@),
        no_json_group(message@) ==> r@ == message@,
{
    let chars = chars_of(message);
    let groups = find_groups(&chars);
    let mut replacements: Vec<String> = Vec::new();
    let mut k: usize = 0;
    while k < groups.len()
        invariant
            k <= groups@.len(),
            replacements@.len() == k,
            chars@ == message@,
            ordered(chars@, spans_view(groups@)),
            spans_view(groups@) == groups_from(chars@, 0),
            forall|j: int|
                0 <= j < k && json_pretty_text(group_text(chars@, spans_view(groups@), j)) is None
                    ==> (#[trigger] replacements@[j])@ == group_text(
                    chars@,
                    spans_view(groups@),
                    j,
                ),
        decreases groups@.len() - k,
    {
        let (start, end) = groups[k];
        proof {
            let spans = spans_view(groups@);
            assert(spans[k as int] == (start as int, end as int));
            assert(spans[k as int].0 <= spans[k as int].1 <= chars@.len());
        }
        let part = string_of_range(&chars, start, end);
        replacements.push(json_prettifier(part.as_str()));
        k += 1;
    }
    let out = splice(&chars, &groups, &replacements);
    proof {
        let spans = spans_view(groups@);
        let texts = texts_view(replacements@);
        assert(out@ == spliced(message@, groups_from(message@, 0), texts));
        assert forall|j: int|
            0 <= j < texts.len() && json_pretty_text(
                group_text(message@, groups_from(message@, 0), j),
            ) is None implies #[trigger] texts[j] == group_text(
            message@,
            groups_from(message@, 0),
            j,
        ) by {
            assert(replacements@[j]@ == group_text(chars@, spans, j));
        }
        if no_json_group(message@) {
            let spans = spans_view(groups@);
            let texts = texts_view(replacements@);
            assert forall|j: int| 0 <= j < spans.len() implies #[trigger] texts[j]
                == chars@.subrange(spans[j].0, spans[j].1) by {
                assert(json_pretty_text(group_text(chars@, groups_from(chars@, 0), j)) is None);
                assert(replacements@[j]@ == group_text(chars@, spans, j));
            }
            lemma_spliced_identity(chars@, spans, texts, spans.len() as int);
        }
    }
    out
}

/// The tag of a line is the flag's: a text of the caller's as it is, the
/// tag of a level as `Level::to_string` gives it.
pub open spec fn tag_fits(tag: Seq<char>, flag: Flag) -> bool {
    match flag {
        Flag::Level(level) => {
            &&& level == Level::Info || level == Level::Help ==> tag == level_label(level)
            &&& level != Level::Error ==> framed(tag, level_label(level))
            &&& level == Level::Error ==> in_order(tag, "💥 "@, "F#CK"@)
        },
        Flag::String(text) => tag == text@,
    }
}

/// The body of a line is the message: as it is under a tag of the
/// caller's, spaced out and in the level's colour under a level.
pub open spec fn body_fits(body: Seq<char>, flag: Flag, message: Seq<char>) -> bool {
    match flag {
        Flag::Level(level) => {
            &&& level == Level::Debug || level == Level::Info ==> body == spaced(message)
            &&& printed(body, spaced(message))
        },
        Flag::String(_) => body == message,
    }
}

/// `line` is the log line for a message: three parts joined by bars. The
/// first is the time as a terminal gets it. The second is the tag. The
/// third is the message, where none of its brace groups is a JSON
/// document.
pub open spec fn logged(line: Seq<char>, date: Seq<char>, flag: Flag, message: Seq<char>) -> bool {
    exists|time: Seq<char>, tag: Seq<char>, body: Seq<char>|
        line == #[trigger] line_of(time, tag, body) && printed(time, date) && tag_fits(tag, flag)
            && (no_json_group(message) ==> body_fits(body, flag, message))
}

/// `line` is the log line under a tag of the caller's: the time as a
/// terminal gets it, then tag and message as they are.
pub open spec fn custom_logged(
    line: Seq<char>,
    date: Seq<char>,
    level: Seq<char>,
    message: Seq<char>,
) -> bool {
    exists|time: Seq<char>| line == #[trigger] line_of(time, level, message) && printed(time, date)
}

/// The body of a JSON entry around the document `json`.
pub open spec fn json_body(json: Seq<char>) -> Seq<char> {
    "Data: \n\n"@ + json + "\n"@
}

/// `line` is the log entry for a JSON document: the time as a terminal
/// gets it, the JSON tag, and the body around the document, which is the
/// message itself where the message is no JSON document.
pub open spec fn json_logged(line: Seq<char>, date: Seq<char>, message: Seq<char>) -> bool {
    exists|time: Seq<char>, json: Seq<char>|
        line == #[trigger] line_of(time, "📃 JSON"@, json_body(json)) && printed(time, date) && (
        json_pretty_text(message) is None ==> json == message)
}

/// The log line for a message: the time dimmed, the tag and the message in
/// the colours of the level, any JSON in the message in pretty print. With
/// a tag of the caller's, tag and message stay without colour.
pub fn log(date: &str, flag: &Flag, message: String) -> (r: String)
    ensures
        logged(r@, date@, *flag, message@),
{
    let time = shown(&paint_dimmed(paint_plain(date)));
    let parsed = syntax_parser(message.as_str());
    match flag {
        Flag::Level(level) => {
            let tag = level.to_string();
            let body = shown(&normalize_message(space_out(parsed), level));
            let line = join_line(time.as_str(), tag.as_str(), body.as_str());
            assert(line@ == line_of(time@, tag@, body@));
            line
        },
        Flag::String(text) => {
            let tag = shown(&paint_plain(text.as_str()));
            let body = shown(&paint_plain(parsed.as_str()));
            let line = join_line(time.as_str(), tag.as_str(), body.as_str());
            assert(line@ == line_of(time@, tag@, body@));
            line
        },
    }
}

/// The log line for a message under a tag of the caller's: the time dimmed,
/// tag and message as they are.
pub fn custom_log(date: &str, level: String, message: String) -> (r: String)
    ensures
        custom_logged(r@, date@, level@, message@),
{
    let time = shown(&paint_dimmed(paint_plain(date)));
    let line = join_line(time.as_str(), level.as_str(), message.as_str());
    assert(line@ == line_of(time@, level@, message@));
    line
}

/// The log entry for a JSON document: the time dimmed, the JSON tag, and
/// the document in pretty print on lines of its own.
pub fn json_log(date: &str, message: &str) -> (r: String)
    ensures
        json_logged(r@, date@, message@),
{
    let time = shown(&paint_dimmed(paint_plain(date)));
    let tag = shown(&paint_plain("📃 JSON"));
    let json = json_prettifier(message);
    let mut body = String::from_str("Data: \n\n");
    body.append(json.as_str());
    body.append("\n");
    let line = join_line(time.as_str(), tag.as_str(), body.as_str());
    assert(line@ == line_of(time@, "📃 JSON"@, json_body(json@)));
    line
}

/// Whether the program has to stop after a line of this level.
pub fn ends_run(level: &Level) -> (r: bool)
    ensures
        r == (*level == Level::Fatal),
{
    match level {
        Level::Fatal => true,
        _ => false,
    }
}

} // verus!
