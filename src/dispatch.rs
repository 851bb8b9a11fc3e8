//! The decisions around a user turn: which command a message is, what the
//! backend is asked, whether a failure calls for the conversational path, and
//! which follow-up buttons a reply carries.

use vstd::prelude::*;
use crate::api::{OutputType, QueryResponse};
use crate::hints::{cleaned, detect_output_format, kind_of};
use crate::text::{
    chars_of, contains, contains_chars, is_whitespace, is_ws, lower_of, lowercase, matches_at,
    occurs_at, same_text, string_of,
};

verus! {

/// A bot command.
#[derive(Clone, Copy, Debug, PartialEq, Eq, Structural)]
pub enum Command {
    Start,
    Help,
    Clear,
    Status,
    Menu,
    Unknown,
}

/// `s` without the whitespace at its start.
pub open spec fn skip_ws(s: Seq<char>) -> Seq<char>
    decreases s.len(),
{
    if s.len() > 0 && is_ws(s[0]) {
        skip_ws(s.drop_first())
    } else {
        s
    }
}

/// The characters of `s` up to its first whitespace.
pub open spec fn leading_word(s: Seq<char>) -> Seq<char>
    decreases s.len(),
{
    if s.len() == 0 || is_ws(s[0]) {
        seq![]
    } else {
        seq![s[0]] + leading_word(s.drop_first())
    }
}

/// The first whitespace-separated word of `s`, or nothing.
pub open spec fn first_word(s: Seq<char>) -> Seq<char> {
    leading_word(skip_ws(s))
}

pub open spec fn command_of(word: Seq<char>) -> Command {
    if word == "/start"@ {
        Command::Start
    } else if word == "/help"@ {
        Command::Help
    } else if word == "/clear"@ {
        Command::Clear
    } else if word == "/status"@ {
        Command::Status
    } else if word == "/menu"@ {
        Command::Menu
    } else {
        Command::Unknown
    }
}

/// The command that the first word of a message names.
pub fn parse_command(text: &str) -> (r: Command)
    ensures
        r == command_of(first_word(text@)),
{
    let cs = chars_of(text);
    let mut a: usize = 0;
    assert(cs@.skip(0) == cs@);
    while a < cs.len() && is_whitespace(cs[a])
        invariant
            a <= cs.len(),
            cs@ == text@,
            skip_ws(text@) == skip_ws(cs@.skip(a as int)),
        decreases cs.len() - a,
    {
        assert(cs@.skip(a as int).drop_first() == cs@.skip(a + 1));
        a = a + 1;
    }
    let ghost rest = cs@.skip(a as int);
    assert(skip_ws(rest) == rest);
    let mut b: usize = a;
    while b < cs.len() && !is_whitespace(cs[b])
        invariant
            a <= b <= cs.len(),
            rest == cs@.skip(a as int),
            leading_word(rest) == cs@.subrange(a as int, b as int) + leading_word(cs@.skip(b as int)),
        decreases cs.len() - b,
    {
        assert(cs@.skip(b as int).drop_first() == cs@.skip(b + 1));
        assert(cs@.subrange(a as int, b + 1) == cs@.subrange(a as int, b as int) + seq![cs@[b as int]]);
        b = b + 1;
    }
    assert(leading_word(cs@.skip(b as int)) == Seq::<char>::empty());
    let mut w: Vec<char> = Vec::new();
    let mut i: usize = a;
    while i < b
        invariant
            a <= i <= b <= cs.len(),
            w@ == cs@.subrange(a as int, i as int),
        decreases b - i,
    {
        w.push(cs[i]);
        assert(cs@.subrange(a as int, i + 1) == w@);
        i = i + 1;
    }
    let word = string_of(&w);
    if same_text(word.as_str(), "/start") {
        Command::Start
    } else if same_text(word.as_str(), "/help") {
        Command::Help
    } else if same_text(word.as_str(), "/clear") {
        Command::Clear
    } else if same_text(word.as_str(), "/status") {
        Command::Status
    } else if same_text(word.as_str(), "/menu") {
        Command::Menu
    } else {
        Command::Unknown
    }
}

/// The command behind a reply-keyboard button's text, if it is one.
pub open spec fn menu_command(text: Seq<char>) -> Option<Command> {
    if text == "❓ Помощь"@ {
        Some(Command::Help)
    } else if text == "🔄 Очистить контекст"@ {
        Some(Command::Clear)
    } else {
        None
    }
}

pub fn menu_button(text: &str) -> (r: Option<Command>)
    ensures
        r == menu_command(text@),
{
    if same_text(text, "❓ Помощь") {
        Some(Command::Help)
    } else if same_text(text, "🔄 Очистить контекст") {
        Some(Command::Clear)
    } else {
        None
    }
}

/// A backend failure whose message speaks of SQL or the database.
pub open spec fn sql_failure(msg: Seq<char>) -> bool {
    contains(msg, "syntax error"@) || contains(msg, "SQL"@) || contains(msg, "database"@)
}

/// Whether a failed question should be retried as conversation.
pub fn is_sql_failure(msg: &str) -> (r: bool)
    ensures
        r == sql_failure(msg@),
{
    let cs = chars_of(msg);
    contains_chars(&cs, &chars_of("syntax error")) || contains_chars(&cs, &chars_of("SQL"))
        || contains_chars(&cs, &chars_of("database"))
}

/// `s` with every occurrence of `p` taken out, left to right.
pub open spec fn remove_all(s: Seq<char>, p: Seq<char>) -> Seq<char>
    decreases s.len(),
{
    if s.len() == 0 {
        seq![]
    } else if p.len() > 0 && occurs_at(s, p, 0) {
        remove_all(s.skip(p.len() as int), p)
    } else {
        seq![s[0]] + remove_all(s.drop_first(), p)
    }
}

fn remove_phrase(s: &Vec<char>, p: &Vec<char>) -> (r: Vec<char>)
    requires
        p@.len() > 0,
    ensures
        r@ == remove_all(s@, p@),
{
    let mut r: Vec<char> = Vec::new();
    let mut i: usize = 0;
    assert(s@.skip(0) == s@);
    while i < s.len()
        invariant
            i <= s.len(),
            p@.len() > 0,
            remove_all(s@, p@) == r@ + remove_all(s@.skip(i as int), p@),
        decreases s.len() - i,
    {
        let ghost t = s@.skip(i as int);
        if matches_at(s, p, i) {
            assert(t.subrange(0, p@.len() as int) == s@.subrange(i as int, i + p@.len()));
            assert(t.skip(p@.len() as int) == s@.skip(i + p@.len()));
            i = i + p.len();
        } else {
            assert(!occurs_at(t, p@, 0)) by {
                if occurs_at(t, p@, 0) {
                    assert(t.subrange(0, p@.len() as int) == s@.subrange(i as int, i + p@.len()));
                }
            }
            assert(t.drop_first() == s@.skip(i + 1));
            assert(t[0] == s@[i as int]);
            r.push(s[i]);
            assert(r@ == r@.drop_last() + seq![s@[i as int]]);
            i = i + 1;
        }
    }
    assert(s@.skip(i as int).len() == 0);
    assert(r@ + Seq::<char>::empty() == r@);
    r
}

/// `s` without whitespace at either end.
pub open spec fn trim_ws(s: Seq<char>) -> Seq<char>
    decreases s.len(),
{
    if s.len() > 0 && is_ws(s[0]) {
        trim_ws(s.drop_first())
    } else if s.len() > 0 && is_ws(s.last()) {
        trim_ws(s.drop_last())
    } else {
        s
    }
}

fn trim_whitespace(s: &Vec<char>) -> (r: Vec<char>)
    ensures
        r@ == trim_ws(s@),
{
    let mut a: usize = 0;
    assert(s@.subrange(0, s.len() as int) == s@);
    while a < s.len() && is_whitespace(s[a])
        invariant
            a <= s.len(),
            trim_ws(s@) == trim_ws(s@.subrange(a as int, s.len() as int)),
        decreases s.len() - a,
    {
        assert(s@.subrange(a as int, s.len() as int).drop_first() == s@.subrange(a + 1, s.len() as int));
        a = a + 1;
    }
    let mut b: usize = s.len();
    while b > a && is_whitespace(s[b - 1])
        invariant
            a <= b <= s.len(),
            a < s.len() ==> !is_ws(s@[a as int]),
            b < s.len() ==> a < b,
            trim_ws(s@) == trim_ws(s@.subrange(a as int, b as int)),
        decreases b - a,
    {
        let ghost t = s@.subrange(a as int, b as int);
        assert(t[0] == s@[a as int]);
        assert(t.drop_last() == s@.subrange(a as int, b - 1));
        b = b - 1;
    }
    let mut r: Vec<char> = Vec::new();
    let mut i: usize = a;
    while i < b
        invariant
            a <= i <= b <= s.len(),
            r@ == s@.subrange(a as int, i as int),
        decreases b - i,
    {
        r.push(s[i]);
        assert(s@.subrange(a as int, i + 1) == r@);
        i = i + 1;
    }
    r
}

/// What the backend is asked for a typed question.
#[derive(Clone, Debug)]
pub struct PreparedQuery {
    pub question: String,
    pub include_analysis: bool,
    pub output_type: OutputType,
}

/// Whether a cleaned question asks for analysis, given its lower-case form.
pub open spec fn wants_analysis(lower: Seq<char>) -> bool {
    contains(lower, "с анализом"@) || contains(lower, "анализ"@)
}

/// The cleaned question without its analysis phrases, trimmed.
pub open spec fn without_analysis(clean: Seq<char>) -> Seq<char> {
    trim_ws(remove_all(remove_all(clean, "с анализом"@), "анализ"@))
}

/// The analysis flag and the question to send, for a cleaned question and its
/// lower-case form.
pub fn analysis_request(clean: &str, clean_lower: &str) -> (r: (bool, String))
    ensures
        r.0 == wants_analysis(clean_lower@),
        r.1@ == without_analysis(clean@),
{
    proof {
        reveal_strlit("с анализом");
        reveal_strlit("анализ");
    }
    let lower = chars_of(clean_lower);
    let long_phrase = chars_of("с анализом");
    let short_phrase = chars_of("анализ");
    let wants = contains_chars(&lower, &long_phrase) || contains_chars(&lower, &short_phrase);
    let step = remove_phrase(&chars_of(clean), &long_phrase);
    let step = remove_phrase(&step, &short_phrase);
    (wants, string_of(&trim_whitespace(&step)))
}

/// The request for a typed question: its output shape, whether it asks for
/// analysis, and the question without those phrases.
pub fn prepare_query(text: &str) -> (r: PreparedQuery)
    ensures
        r.output_type == kind_of(lower_of(text@)),
        r.include_analysis == wants_analysis(lower_of(cleaned(text@, lower_of(text@)))),
        r.question@ == without_analysis(cleaned(text@, lower_of(text@))),
{
    let (clean, output_type) = detect_output_format(text);
    let clean_lower = lowercase(clean.as_str());
    let (include_analysis, question) = analysis_request(clean.as_str(), clean_lower.as_str());
    PreparedQuery { question, include_analysis, output_type }
}

/// The suggestions offered under a reply that has data but no analysis.
pub open spec fn default_suggestions() -> Seq<Seq<char>> {
    seq!["📊 Показать больше данных"@, "📈 С анализом"@]
}

/// The analysis's suggested questions, when it has any.
pub open spec fn analysis_suggestions(r: QueryResponse) -> Seq<Seq<char>> {
    match r.analysis {
        Some(a) => a.suggested_questions@.map_values(|q: String| q@),
        None => seq![],
    }
}

/// The questions offered as buttons under a reply: the analysis's
/// suggestions; failing those, the default ones when there is data; else
/// none.
pub open spec fn reply_suggestion_texts(r: QueryResponse) -> Seq<Seq<char>> {
    if analysis_suggestions(r).len() > 0 {
        analysis_suggestions(r)
    } else if r.data@.len() > 0 && r.row_count > 0 {
        default_suggestions()
    } else {
        seq![]
    }
}

fn copy_strings(v: &Vec<String>) -> (r: Vec<String>)
    ensures
        r@.map_values(|q: String| q@) == v@.map_values(|q: String| q@),
{
    let mut r: Vec<String> = Vec::new();
    let mut i: usize = 0;
    while i < v.len()
        invariant
            i <= v.len(),
            r@.len() == i,
            forall|k: int| 0 <= k < i ==> (#[trigger] r@[k])@ == v@[k]@,
        decreases v.len() - i,
    {
        r.push(String::from_str(v[i].as_str()));
        i = i + 1;
    }
    assert(r@.map_values(|q: String| q@) =~= v@.map_values(|q: String| q@));
    r
}

/// The analysis's suggested questions, for replies that offer no defaults.
pub fn analysis_suggestion_list(response: &QueryResponse) -> (r: Vec<String>)
    ensures
        r@.map_values(|q: String| q@) == analysis_suggestions(*response),
{
    match &response.analysis {
        Some(a) => copy_strings(&a.suggested_questions),
        None => {
            let r: Vec<String> = Vec::new();
            assert(r@.map_values(|q: String| q@) =~= Seq::<Seq<char>>::empty());
            r
        },
    }
}

/// The questions offered as buttons under a reply.
pub fn reply_suggestions(response: &QueryResponse) -> (r: Vec<String>)
    ensures
        r@.map_values(|q: String| q@) == reply_suggestion_texts(*response),
{
    let from_analysis = analysis_suggestion_list(response);
    if from_analysis.len() > 0 {
        from_analysis
    } else if response.data.len() > 0 && response.row_count > 0 {
        let mut r: Vec<String> = Vec::new();
        r.push(String::from_str("📊 Показать больше данных"));
        r.push(String::from_str("📈 С анализом"));
        assert(r@.map_values(|q: String| q@) =~= default_suggestions());
        r
    } else {
        let r: Vec<String> = Vec::new();
        assert(r@.map_values(|q: String| q@) =~= Seq::<Seq<char>>::empty());
        r
    }
}

} // verus!
