use vstd::prelude::*;
use crate::chatbot::sse::{lines, lines_of, starts_with};
use crate::text::{chars_contain, chars_occur_at, chars_of, contains_seq, decimal, push_decimal_digits, push_str, string_of};
use crate::tutor::app::{chat_views, ChatMessage, ChatMessageView, Role};

verus! {

/// How a line of the chat is drawn.
#[derive(Debug, Clone, Copy, PartialEq, Eq, Structural)]
pub enum LineStyle {
    /// The name of who wrote the message below.
    Speaker(Role),
    /// Reasoning text, drawn dimmed.
    Dim,
    /// Ordinary text.
    Plain,
    /// The empty line after a message.
    Blank,
}

/// A line of the chat and how it is drawn.
pub struct ChatLine {
    pub text: String,
    pub style: LineStyle,
}

impl View for ChatLine {
    type V = (Seq<char>, LineStyle);

    open spec fn view(&self) -> (Seq<char>, LineStyle) {
        (self.text@, self.style)
    }
}

/// The label that heads the messages of `role`.
pub open spec fn speaker_label(role: Role) -> Seq<char> {
    match role {
        Role::User => "You: "@,
        Role::Teacher => "Teacher: "@,
        Role::Proofreader => "Proofreader: "@,
        Role::System => "System: "@,
    }
}

/// A line that belongs to reasoning: it marks a thinking section or a thinking process, or
/// is quoted with `>`.
pub open spec fn is_dim_line(line: Seq<char>) -> bool {
    ||| contains_seq(line, "[thinking]"@)
    ||| contains_seq(line, "[/thinking]"@)
    ||| contains_seq(line, "Thinking Process:"@)
    ||| starts_with(line, ">"@)
}

/// The lines of a message's text with their styles.
pub open spec fn content_lines(ls: Seq<Seq<char>>) -> Seq<(Seq<char>, LineStyle)> {
    ls.map_values(|l: Seq<char>| (l, if is_dim_line(l) { LineStyle::Dim } else { LineStyle::Plain }))
}

/// The lines of one message: its speaker, the lines of its text, and an empty line.
pub open spec fn message_lines(m: ChatMessageView) -> Seq<(Seq<char>, LineStyle)> {
    seq![(speaker_label(m.role), LineStyle::Speaker(m.role))] + content_lines(lines_of(m.content))
        + seq![(Seq::<char>::empty(), LineStyle::Blank)]
}

/// The lines of the chat, message after message.
pub open spec fn chat_line_views(ms: Seq<ChatMessageView>) -> Seq<(Seq<char>, LineStyle)>
    decreases ms.len(),
{
    if ms.len() == 0 {
        Seq::empty()
    } else {
        chat_line_views(ms.drop_last()) + message_lines(ms.last())
    }
}

/// The views of chat lines.
pub open spec fn line_views(ls: Seq<ChatLine>) -> Seq<(Seq<char>, LineStyle)> {
    ls.map_values(|l: ChatLine| l@)
}

fn push_line(out: &mut Vec<ChatLine>, text: String, style: LineStyle)
    ensures
        line_views(final(out)@) == line_views(old(out)@).push((text@, style)),
{
    out.push(ChatLine { text, style });
    assert(line_views(out@) =~= line_views(old(out)@).push((text@, style)));
}

fn is_dim(line: &Vec<char>) -> (r: bool)
    ensures
        r == is_dim_line(line@),
{
    proof {
        reveal_strlit(">");
    }
    chars_contain(line, &chars_of("[thinking]")) || chars_contain(line, &chars_of("[/thinking]"))
        || chars_contain(line, &chars_of("Thinking Process:")) || chars_occur_at(line, &chars_of(">"), 0)
}

/// The lines of the chat with their styles (see [`chat_line_views`]).
pub fn chat_lines(messages: &Vec<ChatMessage>) -> (out: Vec<ChatLine>)
    ensures
        line_views(out@) == chat_line_views(chat_views(messages@)),
{
    let ghost ms = chat_views(messages@);
    let mut out: Vec<ChatLine> = Vec::new();
    let mut i: usize = 0;
    while i < messages.len()
        invariant
            0 <= i <= messages@.len(),
            ms == chat_views(messages@),
            line_views(out@) == chat_line_views(ms.take(i as int)),
        decreases messages@.len() - i,
    {
        let msg = &messages[i];
        let ghost before = line_views(out@);
        let label = match msg.role {
            Role::User => "You: ",
            Role::Teacher => "Teacher: ",
            Role::Proofreader => "Proofreader: ",
            Role::System => "System: ",
        };
        push_line(&mut out, label.to_owned(), LineStyle::Speaker(msg.role));
        let ls = lines(&chars_of(msg.content.as_str()));
        let ghost mid = line_views(out@);
        let mut k: usize = 0;
        while k < ls.len()
            invariant
                0 <= k <= ls@.len(),
                line_views(out@) == mid + content_lines(crate::text::piece_views(ls@).take(k as int)),
            decreases ls@.len() - k,
        {
            let style = if is_dim(&ls[k]) { LineStyle::Dim } else { LineStyle::Plain };
            push_line(&mut out, string_of(&ls[k]), style);
            assert(crate::text::piece_views(ls@).take(k + 1) =~= crate::text::piece_views(ls@).take(
                k as int,
            ).push(ls@[k as int]@));
            assert(content_lines(crate::text::piece_views(ls@).take(k + 1)) =~= content_lines(
                crate::text::piece_views(ls@).take(k as int),
            ).push((ls@[k as int]@, style)));
            k = k + 1;
        }
        push_line(&mut out, String::new(), LineStyle::Blank);
        proof {
            assert(crate::text::piece_views(ls@).take(ls@.len() as int) =~= crate::text::piece_views(ls@));
            assert(ms[i as int] == msg@);
            assert(ms.take(i + 1).drop_last() =~= ms.take(i as int));
            assert(label@ == speaker_label(msg.role)) by {
                reveal_strlit("You: ");
                reveal_strlit("Teacher: ");
                reveal_strlit("Proofreader: ");
                reveal_strlit("System: ");
            }
            assert(line_views(out@) =~= before + message_lines(msg@));
        }
        i = i + 1;
    }
    assert(ms.take(messages@.len() as int) =~= ms);
    out
}

/// How far the chat is scrolled: to its end when following new text, otherwise where the
/// user put it but no further than the end. The view shows the area's height less its two
/// border lines; the line count is taken as a `u16`, wrapping as a cast does.
pub open spec fn scroll_position(auto_scroll: bool, scroll_offset: u16, total_lines: usize, area_height: u16) -> u16 {
    let inner = if area_height >= 2 { (area_height - 2) as u16 } else { 0u16 };
    let total = total_lines as u16;
    let last = if total >= inner { (total - inner) as u16 } else { 0u16 };
    if auto_scroll {
        last
    } else if scroll_offset < last {
        scroll_offset
    } else {
        last
    }
}

/// How far the chat is scrolled (see [`scroll_position`]).
pub fn chat_scroll(auto_scroll: bool, scroll_offset: u16, total_lines: usize, area_height: u16) -> (r: u16)
    ensures
        r == scroll_position(auto_scroll, scroll_offset, total_lines, area_height),
{
    let inner = area_height.saturating_sub(2);
    #[verifier::truncate]
    let total = total_lines as u16;
    let last = total.saturating_sub(inner);
    if auto_scroll {
        last
    } else {
        scroll_offset.min(last)
    }
}

/// The text of the status bar.
pub open spec fn status_text(status: Seq<char>, review_mode: bool, history_len: usize) -> Seq<char> {
    " Status: "@ + status + " | Review Mode: "@ + (if review_mode { "ON (F2 to toggle)"@ } else {
        "OFF (F2 to toggle)"@
    }) + " | History: "@ + decimal((history_len / 2) as int) + " "@
}

/// The status bar: the status, the review mode, and the number of exchanges remembered
/// (two messages each).
pub fn status_bar(status: &str, review_mode: bool, history_len: usize) -> (r: String)
    ensures
        r@ == status_text(status@, review_mode, history_len),
{
    let mut r = String::new();
    push_str(&mut r, " Status: ");
    push_str(&mut r, status);
    push_str(&mut r, " | Review Mode: ");
    if review_mode {
        push_str(&mut r, "ON (F2 to toggle)");
    } else {
        push_str(&mut r, "OFF (F2 to toggle)");
    }
    push_str(&mut r, " | History: ");
    push_decimal_digits(&mut r, (history_len / 2) as u64);
    push_str(&mut r, " ");
    r
}

/// The input box shows a hint when there is nothing typed and no reply under way.
pub fn shows_input_hint(input: &str, is_processing: bool) -> (r: bool)
    ensures
        r == (input@.len() == 0 && !is_processing),
{
    input.unicode_len() == 0 && !is_processing
}

} // verus!
