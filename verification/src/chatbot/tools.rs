use vstd::prelude::*;
use crate::text::{
    chars_occur_at, chars_of, contains_seq, chars_contain, decimal, occurs_at, piece_views,
    push_decimal_i64, push_str, push_string, shell_sep, split_by, split_chars, string_of,
    trim_chars, trimmed, separator, Separator,
};
use crate::chatbot::models::{BashCommandArgs, ToolCall, ToolProperty, WeatherArgs};

verus! {

/// The words of a shell command: the pieces between white space and `| & ; ( ) < >`, empty
/// pieces included.
pub fn tokenize_shell_like(command: &str) -> (tokens: Vec<String>)
    ensures
        tokens@.map_values(|t: String| t@) == split_by(command@, shell_sep()),
{
    let chars = chars_of(command);
    let pieces = split_chars(&chars, Separator::Shell);
    assert(separator(Separator::Shell) == shell_sep());
    let mut tokens: Vec<String> = Vec::new();
    let mut i: usize = 0;
    while i < pieces.len()
        invariant
            0 <= i <= pieces@.len(),
            tokens@.map_values(|t: String| t@) == piece_views(pieces@).take(i as int),
        decreases pieces@.len() - i,
    {
        let ghost before = tokens@;
        tokens.push(string_of(&pieces[i]));
        assert(tokens@.map_values(|t: String| t@) =~= before.map_values(|t: String| t@).push(pieces@[i as int]@));
        assert(piece_views(pieces@).take(i + 1) =~= piece_views(pieces@).take(i as int).push(pieces@[i as int]@));
        i = i + 1;
    }
    assert(piece_views(pieces@).take(pieces@.len() as int) =~= piece_views(pieces@));
    tokens
}

/// A quote character that a command word may be wrapped in.
pub open spec fn is_quote(c: char) -> bool {
    c == '"' || c == '\'' || c == '`'
}

/// `s` without the quote characters at its start.
pub open spec fn strip_leading_quotes(s: Seq<char>) -> Seq<char>
    decreases s.len(),
{
    if s.len() > 0 && is_quote(s[0]) {
        strip_leading_quotes(s.drop_first())
    } else {
        s
    }
}

/// `s` without the quote characters at its end.
pub open spec fn strip_trailing_quotes(s: Seq<char>) -> Seq<char>
    decreases s.len(),
{
    if s.len() > 0 && is_quote(s.last()) {
        strip_trailing_quotes(s.drop_last())
    } else {
        s
    }
}

/// `s` without surrounding quote characters, as `str::trim_matches` gives it.
pub open spec fn unquoted(s: Seq<char>) -> Seq<char> {
    strip_trailing_quotes(strip_leading_quotes(s))
}

/// `s` ends with `p`.
pub open spec fn ends_with(s: Seq<char>, p: Seq<char>) -> bool {
    occurs_at(s, p, s.len() - p.len())
}

/// The word names a parent directory: `..`, or a path that starts with `../`, ends with
/// `/..` or passes through `/../`.
pub open spec fn leaves_directory(token: Seq<char>) -> bool {
    token == ".."@ || occurs_at(token, "../"@, 0) || ends_with(token, "/.."@) || contains_seq(
        token,
        "/../"@,
    )
}

/// Why the word takes a command out of the working directory `cwd`, if it does.
pub open spec fn scope_violation(token: Seq<char>, cwd: Seq<char>) -> Option<Seq<char>> {
    if token.len() == 0 {
        None
    } else if leaves_directory(token) {
        Some("Command is not allowed to access parent directories above "@ + cwd + "."@)
    } else if occurs_at(token, "/"@, 0) && !occurs_at(token, cwd, 0) {
        Some("Absolute paths outside the current directory are not allowed: "@ + token)
    } else {
        None
    }
}

/// The first violation among the unquoted words, if any.
pub open spec fn first_violation(tokens: Seq<Seq<char>>, cwd: Seq<char>) -> Option<Seq<char>>
    decreases tokens.len(),
{
    if tokens.len() == 0 {
        None
    } else {
        match scope_violation(unquoted(tokens[0]), cwd) {
            Some(m) => Some(m),
            None => first_violation(tokens.drop_first(), cwd),
        }
    }
}

/// A command passes the scope check exactly when none of its unquoted words leaves the
/// working directory or names an absolute path outside it.
pub proof fn law_scope_check_blocks_every_escape(tokens: Seq<Seq<char>>, cwd: Seq<char>)
    ensures
        first_violation(tokens, cwd) is None <==> forall|i: int|
            0 <= i < tokens.len() ==> #[trigger] scope_violation(unquoted(tokens[i]), cwd) is None,
    decreases tokens.len(),
{
    if tokens.len() > 0 {
        law_scope_check_blocks_every_escape(tokens.drop_first(), cwd);
        if first_violation(tokens, cwd) is None {
            assert forall|i: int| 0 <= i < tokens.len() implies #[trigger] scope_violation(
                unquoted(tokens[i]),
                cwd,
            ) is None by {
                if i > 0 {
                    assert(tokens[i] == tokens.drop_first()[i - 1]);
                }
            }
        } else {
            if scope_violation(unquoted(tokens[0]), cwd) is None {
                let j = choose|j: int|
                    0 <= j < tokens.drop_first().len() && !(#[trigger] scope_violation(
                        unquoted(tokens.drop_first()[j]),
                        cwd,
                    ) is None);
                assert(tokens.drop_first()[j] == tokens[j + 1]);
            }
        }
    }
}

fn quote_char(c: char) -> (r: bool)
    ensures
        r == is_quote(c),
{
    c == '"' || c == '\'' || c == '`'
}

proof fn lemma_strip_leading(s: Seq<char>, i: int)
    requires
        0 <= i <= s.len(),
        forall|j: int| 0 <= j < i ==> is_quote(#[trigger] s[j]),
        i == s.len() || !is_quote(s[i]),
    ensures
        strip_leading_quotes(s) == s.skip(i),
    decreases i,
{
    if i > 0 {
        assert(s.drop_first().skip(i - 1) =~= s.skip(i));
        lemma_strip_leading(s.drop_first(), i - 1);
    } else {
        assert(s.skip(0) =~= s);
    }
}

proof fn lemma_strip_trailing(s: Seq<char>, j: int)
    requires
        0 <= j <= s.len(),
        forall|k: int| j <= k < s.len() ==> is_quote(#[trigger] s[k]),
        j == 0 || !is_quote(s[j - 1]),
    ensures
        strip_trailing_quotes(s) == s.take(j),
    decreases s.len() - j,
{
    if j < s.len() {
        assert(s.drop_last().take(j) =~= s.take(j));
        lemma_strip_trailing(s.drop_last(), j);
    } else {
        assert(s.take(j) =~= s);
    }
}

fn unquote(v: &Vec<char>) -> (r: Vec<char>)
    ensures
        r@ == unquoted(v@),
{
    let mut i: usize = 0;
    while i < v.len() && quote_char(v[i])
        invariant
            0 <= i <= v.len(),
            forall|j: int| 0 <= j < i ==> is_quote(#[trigger] v@[j]),
        decreases v.len() - i,
    {
        i = i + 1;
    }
    proof {
        lemma_strip_leading(v@, i as int);
    }
    let mut j: usize = v.len();
    while j > i && quote_char(v[j - 1])
        invariant
            i <= j <= v.len(),
            forall|k: int| j <= k < v.len() ==> is_quote(#[trigger] v@[k]),
        decreases j,
    {
        j = j - 1;
    }
    proof {
        let rest = v@.skip(i as int);
        assert forall|k: int| j - i <= k < rest.len() implies is_quote(#[trigger] rest[k]) by {
            assert(rest[k] == v@[k + i]);
        }
        if j > i {
            assert(rest[j - i - 1] == v@[j - 1]);
        }
        lemma_strip_trailing(rest, j - i);
        assert(rest.take(j - i) =~= v@.subrange(i as int, j as int));
    }
    crate::text::slice_chars(v, i, j)
}

fn violation(token: &Vec<char>, cwd: &Vec<char>) -> (r: Option<String>)
    ensures
        match r {
            Some(m) => scope_violation(token@, cwd@) == Some(m@),
            None => scope_violation(token@, cwd@) is None,
        },
{
    if token.len() == 0 {
        return None;
    }
    let dots = chars_of("..");
    let up = chars_of("../");
    let tail = chars_of("/..");
    let through = chars_of("/../");
    let slash = chars_of("/");
    proof {
        reveal_strlit("..");
        reveal_strlit("/..");
    }
    let is_dots = token.len() == 2 && chars_occur_at(token, &dots, 0);
    assert(is_dots == (token@ == ".."@)) by {
        if token@.len() == 2 {
            assert(token@.subrange(0, 2) =~= token@);
        }
    }
    let ends = token.len() >= 3 && chars_occur_at(token, &tail, token.len() - 3);
    assert(ends == ends_with(token@, "/.."@));
    if is_dots || chars_occur_at(token, &up, 0) || ends || chars_contain(token, &through) {
        let mut m = String::new();
        push_str(&mut m, "Command is not allowed to access parent directories above ");
        let c = string_of(cwd);
        push_string(&mut m, &c);
        push_str(&mut m, ".");
        return Some(m);
    }
    if chars_occur_at(token, &slash, 0) && !chars_occur_at(token, cwd, 0) {
        let mut m = String::new();
        push_str(&mut m, "Absolute paths outside the current directory are not allowed: ");
        let t = string_of(token);
        push_string(&mut m, &t);
        return Some(m);
    }
    None
}

/// Checks that the command stays in the working directory `cwd`: none of its unquoted
/// words may name a parent directory or an absolute path outside `cwd`. The error is the
/// message for the first word that does.
pub fn validate_command_scope(command: &str, cwd: &str) -> (r: Result<(), String>)
    ensures
        match r {
            Ok(()) => first_violation(split_by(command@, shell_sep()), cwd@) is None,
            Err(m) => first_violation(split_by(command@, shell_sep()), cwd@) == Some(m@),
        },
{
    let tokens = tokenize_shell_like(command);
    let ghost all = tokens@.map_values(|t: String| t@);
    let cwd_chars = chars_of(cwd);
    let mut i: usize = 0;
    assert(all.skip(0) =~= all);
    while i < tokens.len()
        invariant
            0 <= i <= tokens@.len(),
            all == tokens@.map_values(|t: String| t@),
            all == split_by(command@, shell_sep()),
            cwd_chars@ == cwd@,
            first_violation(all, cwd@) == first_violation(all.skip(i as int), cwd@),
        decreases tokens@.len() - i,
    {
        let raw = chars_of(tokens[i].as_str());
        let token = unquote(&raw);
        let ghost rest = all.skip(i as int);
        assert(rest[0] == tokens@[i as int]@);
        assert(rest.drop_first() =~= all.skip(i + 1));
        match violation(&token, &cwd_chars) {
            Some(m) => {
                return Err(m);
            },
            None => {},
        }
        i = i + 1;
    }
    Ok(())
}

/// What a tool call amounts to.
pub enum ToolPlan {
    /// Run the shell command.
    RunBash(String),
    /// Read the machine's date and time.
    CurrentDateTime,
    /// Look up the weather, for the city when one is named.
    Weather(Option<String>),
    /// Answer the model with this text and run nothing.
    Reply(String),
}

/// Decides what a tool call does, given what its arguments parse to as the arguments of
/// `run_bash_command` and of `get_weather`. Arguments of `run_bash_command` that do not parse
/// are an error; those of `get_weather` stand for no city; an unknown tool gets a reply that
/// names it.
pub fn plan_tool_call(
    call: &ToolCall,
    bash_args: Option<BashCommandArgs>,
    weather_args: Option<WeatherArgs>,
) -> (r: Result<ToolPlan, String>)
    ensures
        call.function.name@ == "run_bash_command"@ ==> match bash_args {
            Some(a) => (r matches Ok(ToolPlan::RunBash(c)) && c@ == a.command@),
            None => (r matches Err(m) && m@ == "Failed to parse run_bash_command arguments"@),
        },
        call.function.name@ == "get_current_date_time"@ ==> r matches Ok(ToolPlan::CurrentDateTime),
        call.function.name@ == "get_weather"@ ==> match weather_args {
            Some(a) => (r matches Ok(ToolPlan::Weather(city)) && city == a.city),
            None => (r matches Ok(ToolPlan::Weather(city)) && city is None),
        },
        call.function.name@ != "run_bash_command"@ && call.function.name@ != "get_current_date_time"@
            && call.function.name@ != "get_weather"@ ==> (r matches Ok(ToolPlan::Reply(m)) && m@
            == "Unsupported tool call: "@ + call.function.name@),
{
    let name = chars_of(call.function.name.as_str());
    let bash = chars_of("run_bash_command");
    let date = chars_of("get_current_date_time");
    let weather = chars_of("get_weather");
    proof {
        reveal_strlit("run_bash_command");
        reveal_strlit("get_current_date_time");
        reveal_strlit("get_weather");
        assert("run_bash_command"@.len() == 16);
        assert("get_current_date_time"@.len() == 21);
        assert("get_weather"@.len() == 11);
        assert(name@ == call.function.name@);
    }
    if same(&name, &bash) {
        match bash_args {
            Some(a) => Ok(ToolPlan::RunBash(a.command)),
            None => Err("Failed to parse run_bash_command arguments".to_owned()),
        }
    } else if same(&name, &date) {
        Ok(ToolPlan::CurrentDateTime)
    } else if same(&name, &weather) {
        match weather_args {
            Some(a) => Ok(ToolPlan::Weather(a.city)),
            None => Ok(ToolPlan::Weather(None)),
        }
    } else {
        let mut m = String::new();
        push_str(&mut m, "Unsupported tool call: ");
        push_string(&mut m, &call.function.name);
        Ok(ToolPlan::Reply(m))
    }
}

/// Whether two character sequences are equal.
pub fn same(a: &Vec<char>, b: &Vec<char>) -> (r: bool)
    ensures
        r == (a@ == b@),
{
    if a.len() != b.len() {
        return false;
    }
    let r = chars_occur_at(a, b, 0);
    assert(a@.subrange(0, a@.len() as int) =~= a@);
    r
}

/// `text`, or `<empty>` when it is empty.
pub open spec fn or_empty_marker(text: Seq<char>) -> Seq<char> {
    if text.len() == 0 {
        "<empty>"@
    } else {
        text
    }
}

fn push_or_empty(out: &mut String, text: &Vec<char>)
    ensures
        final(out)@ == old(out)@ + or_empty_marker(text@),
{
    if text.len() == 0 {
        push_str(out, "<empty>");
    } else {
        let s = string_of(text);
        push_string(out, &s);
    }
}

/// The report of a finished shell command, from its trimmed output streams.
pub open spec fn command_report(command: Seq<char>, exit_code: int, stdout: Seq<char>, stderr: Seq<char>) -> Seq<char> {
    let rendered = "command: "@ + command + "\nexit_code: "@ + decimal(exit_code) + "\nstdout:\n"@
        + or_empty_marker(trimmed(stdout)) + "\nstderr:\n"@ + or_empty_marker(trimmed(stderr));
    if exit_code == 0 {
        rendered
    } else {
        rendered + "\nresult: command failed with a non-zero exit code"@
    }
}

/// The report handed back to the model for a shell command that ran (see
/// [`command_report`]).
pub fn render_command_report(command: &str, exit_code: i32, stdout: &str, stderr: &str) -> (r: String)
    ensures
        r@ == command_report(command@, exit_code as int, stdout@, stderr@),
{
    let out = trim_chars(&chars_of(stdout));
    let err = trim_chars(&chars_of(stderr));
    let mut r = String::new();
    push_str(&mut r, "command: ");
    push_str(&mut r, command);
    push_str(&mut r, "\nexit_code: ");
    push_decimal_i64(&mut r, exit_code as i64);
    push_str(&mut r, "\nstdout:\n");
    push_or_empty(&mut r, &out);
    push_str(&mut r, "\nstderr:\n");
    push_or_empty(&mut r, &err);
    if exit_code != 0 {
        push_str(&mut r, "\nresult: command failed with a non-zero exit code");
    }
    r
}

/// The report of the `date` command, from its trimmed output streams.
pub open spec fn date_report(exit_code: int, stdout: Seq<char>, stderr: Seq<char>) -> Seq<char> {
    "exit_code: "@ + decimal(exit_code) + "\ncurrent_date_time: "@ + or_empty_marker(trimmed(stdout))
        + "\nstderr:\n"@ + or_empty_marker(trimmed(stderr))
}

/// The report handed back to the model for the date and time (see [`date_report`]).
pub fn render_date_report(exit_code: i32, stdout: &str, stderr: &str) -> (r: String)
    ensures
        r@ == date_report(exit_code as int, stdout@, stderr@),
{
    let out = trim_chars(&chars_of(stdout));
    let err = trim_chars(&chars_of(stderr));
    let mut r = String::new();
    push_str(&mut r, "exit_code: ");
    push_decimal_i64(&mut r, exit_code as i64);
    push_str(&mut r, "\ncurrent_date_time: ");
    push_or_empty(&mut r, &out);
    push_str(&mut r, "\nstderr:\n");
    push_or_empty(&mut r, &err);
    r
}

/// `s` with each space replaced by `%20`.
pub open spec fn encode_spaces(s: Seq<char>) -> Seq<char>
    decreases s.len(),
{
    if s.len() == 0 {
        Seq::empty()
    } else {
        encode_spaces(s.drop_last()) + if s.last() == ' ' {
            "%20"@
        } else {
            seq![s.last()]
        }
    }
}

/// Encoding works piece by piece: the encoding of two texts in a row is the encoding of
/// the first followed by that of the second.
pub proof fn law_encoding_spaces_splits(a: Seq<char>, b: Seq<char>)
    ensures
        encode_spaces(a + b) == encode_spaces(a) + encode_spaces(b),
    decreases b.len(),
{
    if b.len() == 0 {
        assert(a + b =~= a);
        assert(encode_spaces(a) + encode_spaces(b) =~= encode_spaces(a));
    } else {
        law_encoding_spaces_splits(a, b.drop_last());
        assert((a + b).drop_last() =~= a + b.drop_last());
        assert((a + b).last() == b.last());
    }
}

/// A space becomes `%20` and any other character stays as it is.
pub proof fn law_encoding_one_character(c: char)
    ensures
        encode_spaces(seq![c]) == if c == ' ' { "%20"@ } else { seq![c] },
{
    let s = seq![c];
    assert(s.drop_last() =~= Seq::<char>::empty());
    assert(encode_spaces(s.drop_last()) == Seq::<char>::empty());
    assert(s.last() == c);
    assert(Seq::<char>::empty() + "%20"@ =~= "%20"@);
    assert(Seq::<char>::empty() + seq![c] =~= seq![c]);
}

/// No space is left after encoding, wherever it stood.
pub proof fn law_encoding_leaves_no_space(s: Seq<char>)
    ensures
        !encode_spaces(s).contains(' '),
    decreases s.len(),
{
    reveal_strlit("%20");
    if s.len() > 0 {
        law_encoding_leaves_no_space(s.drop_last());
        let a = encode_spaces(s.drop_last());
        let b = if s.last() == ' ' { "%20"@ } else { seq![s.last()] };
        assert forall|i: int| 0 <= i < (a + b).len() implies (a + b)[i] != ' ' by {
            if i < a.len() {
                assert((a + b)[i] == a[i]);
            } else {
                assert((a + b)[i] == b[i - a.len()]);
            }
        }
    }
}

/// The weather service's address for the city, or for the caller's own location when no
/// city, or an empty one, is named.
pub open spec fn weather_url(city: Option<Seq<char>>) -> Seq<char> {
    let location = match city {
        Some(c) => c,
        None => Seq::empty(),
    };
    let encoded = encode_spaces(location);
    if encoded.len() == 0 {
        "https://wttr.in/?format=%l:+%C+%t+%h+%w"@
    } else {
        "https://wttr.in/"@ + encoded + "?format=%l:+%C+%t+%h+%w"@
    }
}

/// The weather service's address (see [`weather_url`]).
pub fn build_weather_url(city: &Option<String>) -> (url: String)
    ensures
        url@ == weather_url(match city {
            Some(c) => Some(c@),
            None => None,
        }),
        !url@.contains(' '),
{
    let location = match city {
        Some(c) => chars_of(c.as_str()),
        None => Vec::new(),
    };
    let ghost loc = location@;
    let mut encoded = String::new();
    let mut i: usize = 0;
    while i < location.len()
        invariant
            0 <= i <= location@.len(),
            location@ == loc,
            encoded@ == encode_spaces(loc.take(i as int)),
        decreases location@.len() - i,
    {
        assert(loc.take(i + 1).drop_last() =~= loc.take(i as int));
        if location[i] == ' ' {
            push_str(&mut encoded, "%20");
        } else {
            crate::text::push_char(&mut encoded, location[i]);
            assert(encoded@ =~= encode_spaces(loc.take(i as int)) + seq![loc[i as int]]);
        }
        i = i + 1;
    }
    assert(loc.take(loc.len() as int) =~= loc);
    let mut url = String::new();
    if encoded.as_str().unicode_len() == 0 {
        push_str(&mut url, "https://wttr.in/?format=%l:+%C+%t+%h+%w");
        assert(url@ =~= "https://wttr.in/?format=%l:+%C+%t+%h+%w"@);
    } else {
        push_str(&mut url, "https://wttr.in/");
        push_string(&mut url, &encoded);
        push_str(&mut url, "?format=%l:+%C+%t+%h+%w");
    }
    proof {
        reveal_strlit("https://wttr.in/");
        reveal_strlit("?format=%l:+%C+%t+%h+%w");
        reveal_strlit("https://wttr.in/?format=%l:+%C+%t+%h+%w");
        law_encoding_leaves_no_space(loc);
        let e = encode_spaces(loc);
        let u = url@;
        assert forall|i: int| 0 <= i < u.len() implies u[i] != ' ' by {
            if e.len() > 0 {
                let p = "https://wttr.in/"@;
                let q = "?format=%l:+%C+%t+%h+%w"@;
                assert(u == p + e + q);
                if i < p.len() {
                    assert(u[i] == p[i]);
                } else if i < p.len() + e.len() {
                    assert(u[i] == e[i - p.len()]);
                } else {
                    assert(u[i] == q[i - p.len() - e.len()]);
                }
            }
        }
    }
    url
}

/// The report handed back to the model for the weather service's reply.
pub fn render_weather_report(reply: &str) -> (r: String)
    ensures
        r@ == "current_weather: "@ + or_empty_marker(trimmed(reply@)),
{
    let weather = trim_chars(&chars_of(reply));
    let mut r = String::new();
    push_str(&mut r, "current_weather: ");
    push_or_empty(&mut r, &weather);
    r
}


/// What `run_bash_command` does.
pub const RUN_BASH_DESCRIPTION: &'static str = "Execute a bash command in the current working directory on the local machine and return stdout, stderr, and exit status. Assume macOS/BSD userland, prefer portable shell commands, and avoid GNU-only flags such as `find -printf`.";

/// What the `command` argument of `run_bash_command` holds.
pub const COMMAND_DESCRIPTION: &'static str = "The bash command to execute. Keep all file access inside the current working directory and prefer macOS-compatible command options.";

/// What `get_current_date_time` does.
pub const DATE_TIME_DESCRIPTION: &'static str = "Get the current local date and time from the machine running the chatbot.";

/// What `get_weather` does.
pub const WEATHER_DESCRIPTION: &'static str = "Get the current weather for a city. If no city is provided, use the current city based on the machine's network location.";

/// What the `city` argument of `get_weather` holds.
pub const CITY_DESCRIPTION: &'static str = "Optional city name. If omitted, use the current city.";

/// A tool the model may call: its name, what it does, its arguments, and which of them
/// it must give.
pub struct ToolSpec {
    pub name: &'static str,
    pub description: &'static str,
    pub properties: Vec<(&'static str, ToolProperty)>,
    pub required: Vec<&'static str>,
}

/// The tools on offer: `run_bash_command` with its required `command`,
/// `get_current_date_time` without arguments, and `get_weather` with an optional `city`.
pub fn tool_specs() -> (specs: Vec<ToolSpec>)
    ensures
        specs@.len() == 3,
        specs@[0].name@ == "run_bash_command"@,
        specs@[0].description@ == RUN_BASH_DESCRIPTION@,
        specs@[0].properties@.len() == 1,
        specs@[0].properties@[0].0@ == "command"@,
        specs@[0].properties@[0].1.kind@ == "string"@,
        specs@[0].properties@[0].1.description@ == COMMAND_DESCRIPTION@,
        specs@[0].required@.len() == 1,
        specs@[0].required@[0]@ == "command"@,
        specs@[1].name@ == "get_current_date_time"@,
        specs@[1].description@ == DATE_TIME_DESCRIPTION@,
        specs@[1].properties@.len() == 0,
        specs@[1].required@.len() == 0,
        specs@[2].name@ == "get_weather"@,
        specs@[2].description@ == WEATHER_DESCRIPTION@,
        specs@[2].properties@.len() == 1,
        specs@[2].properties@[0].0@ == "city"@,
        specs@[2].properties@[0].1.kind@ == "string"@,
        specs@[2].properties@[0].1.description@ == CITY_DESCRIPTION@,
        specs@[2].required@.len() == 0,
{
    let mut bash_props: Vec<(&'static str, ToolProperty)> = Vec::new();
    bash_props.push(("command", ToolProperty { kind: "string", description: COMMAND_DESCRIPTION }));
    let mut bash_required: Vec<&'static str> = Vec::new();
    bash_required.push("command");
    let mut weather_props: Vec<(&'static str, ToolProperty)> = Vec::new();
    weather_props.push(("city", ToolProperty { kind: "string", description: CITY_DESCRIPTION }));
    let mut specs: Vec<ToolSpec> = Vec::new();
    specs.push(
        ToolSpec {
            name: "run_bash_command",
            description: RUN_BASH_DESCRIPTION,
            properties: bash_props,
            required: bash_required,
        },
    );
    specs.push(
        ToolSpec {
            name: "get_current_date_time",
            description: DATE_TIME_DESCRIPTION,
            properties: Vec::new(),
            required: Vec::new(),
        },
    );
    specs.push(
        ToolSpec {
            name: "get_weather",
            description: WEATHER_DESCRIPTION,
            properties: weather_props,
            required: Vec::new(),
        },
    );
    specs
}

/// Whether `name` is among the required arguments.
pub open spec fn is_required(required: Seq<&'static str>, name: Seq<char>) -> bool {
    exists|i: int| 0 <= i < required.len() && required[i]@ == name
}

/// The listing lines of one argument.
pub open spec fn property_line(required: Seq<&'static str>, p: (&'static str, ToolProperty)) -> Seq<char> {
    "      "@ + p.0@ + " ("@ + (if is_required(required, p.0@) { "required"@ } else { "optional"@ }) + "): "@
        + p.1.description@
}

/// The listing lines of one tool: its name and description, then its arguments.
pub open spec fn tool_lines(spec: ToolSpec) -> Seq<Seq<char>> {
    seq!["  "@ + spec.name@ + ": "@ + spec.description@] + if spec.properties@.len() == 0 {
        seq!["    arguments: none"@]
    } else {
        seq!["    arguments:"@] + spec.properties@.map_values(
            |p: (&'static str, ToolProperty)| property_line(spec.required@, p),
        )
    }
}

/// The listing lines of tools, in order.
pub open spec fn tools_lines(specs: Seq<ToolSpec>) -> Seq<Seq<char>>
    decreases specs.len(),
{
    if specs.len() == 0 {
        Seq::empty()
    } else {
        tools_lines(specs.drop_last()) + tool_lines(specs.last())
    }
}

fn required_has(required: &Vec<&'static str>, name: &'static str) -> (r: bool)
    ensures
        r == is_required(required@, name@),
{
    let target = chars_of(name);
    let mut i: usize = 0;
    while i < required.len()
        invariant
            0 <= i <= required@.len(),
            target@ == name@,
            forall|j: int| 0 <= j < i ==> required@[j]@ != name@,
        decreases required@.len() - i,
    {
        let candidate = chars_of(required[i]);
        if same(&candidate, &target) {
            return true;
        }
        i = i + 1;
    }
    false
}

fn push_line(lines: &mut Vec<String>, line: String)
    ensures
        final(lines)@.map_values(|s: String| s@) == old(lines)@.map_values(|s: String| s@).push(line@),
{
    lines.push(line);
    assert(lines@.map_values(|s: String| s@) =~= old(lines)@.map_values(|s: String| s@).push(line@));
}

/// The lines of the tool listing: a heading, then each tool (see [`tool_lines`]).
pub fn tool_listing(specs: &Vec<ToolSpec>) -> (lines: Vec<String>)
    ensures
        lines@.map_values(|s: String| s@) == seq!["Available tools:"@] + tools_lines(specs@),
{
    let mut lines: Vec<String> = Vec::new();
    push_line(&mut lines, "Available tools:".to_owned());
    let mut i: usize = 0;
    while i < specs.len()
        invariant
            0 <= i <= specs@.len(),
            lines@.map_values(|s: String| s@) == seq!["Available tools:"@] + tools_lines(specs@.take(i as int)),
        decreases specs@.len() - i,
    {
        let spec = &specs[i];
        let ghost before = lines@.map_values(|s: String| s@);
        let mut head = String::new();
        push_str(&mut head, "  ");
        push_str(&mut head, spec.name);
        push_str(&mut head, ": ");
        push_str(&mut head, spec.description);
        push_line(&mut lines, head);
        if spec.properties.len() == 0 {
            push_line(&mut lines, "    arguments: none".to_owned());
        } else {
            push_line(&mut lines, "    arguments:".to_owned());
            let mut k: usize = 0;
            let ghost mid = lines@.map_values(|s: String| s@);
            while k < spec.properties.len()
                invariant
                    0 <= k <= spec.properties@.len(),
                    lines@.map_values(|s: String| s@) == mid + spec.properties@.take(k as int).map_values(
                        |p: (&'static str, ToolProperty)| property_line(spec.required@, p),
                    ),
                decreases spec.properties@.len() - k,
            {
                let (pname, prop) = spec.properties[k];
                let mut line = String::new();
                push_str(&mut line, "      ");
                push_str(&mut line, pname);
                push_str(&mut line, " (");
                if required_has(&spec.required, pname) {
                    push_str(&mut line, "required");
                } else {
                    push_str(&mut line, "optional");
                }
                push_str(&mut line, "): ");
                push_str(&mut line, prop.description);
                push_line(&mut lines, line);
                assert(spec.properties@.take(k + 1) =~= spec.properties@.take(k as int).push(spec.properties@[k as int]));
                k = k + 1;
            }
            assert(spec.properties@.take(spec.properties@.len() as int) =~= spec.properties@);
        }
        proof {
            assert(specs@.take(i + 1).drop_last() =~= specs@.take(i as int));
            assert(specs@.take(i + 1).last() == *spec);
            assert(lines@.map_values(|s: String| s@) =~= before + tool_lines(*spec));
        }
        i = i + 1;
    }
    assert(specs@.take(specs@.len() as int) =~= specs@);
    lines
}

} // verus!
