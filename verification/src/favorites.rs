//! The favorites file: one name per line.

use vstd::prelude::*;
use vstd::seq_lib::lemma_seq_contains_after_push;
use vstd::string::*;
use vstd::utf8::*;
use crate::name_set::NameSet;

verus! {

/// `names`, one per line: a line feed stands between each two.
pub open spec fn join_lines(names: Seq<Seq<char>>) -> Seq<char>
    decreases names.len(),
{
    if names.len() == 0 {
        Seq::empty()
    } else if names.len() == 1 {
        names[0]
    } else {
        names[0] + seq!['\n'] + join_lines(names.drop_first())
    }
}

/// How many characters stand before the first line feed of `text`, or in
/// all of `text` if it holds none.
pub open spec fn first_line_len(text: Seq<char>) -> nat
    decreases text.len(),
{
    if text.len() == 0 || text[0] == '\n' {
        0
    } else {
        1 + first_line_len(text.drop_first())
    }
}

/// `line` without the carriage return at its end, if it has one.
pub open spec fn without_cr(line: Seq<char>) -> Seq<char> {
    if line.len() > 0 && line.last() == '\r' {
        line.drop_last()
    } else {
        line
    }
}

/// The lines of `text`. A line ends with a line feed, or with a carriage
/// return and a line feed, neither of which belongs to it; the last line may
/// end with the text instead.
pub open spec fn lines_of(text: Seq<char>) -> Seq<Seq<char>>
    decreases text.len(),
    via lines_of_decreases
{
    if text.len() == 0 {
        Seq::empty()
    } else {
        let n = first_line_len(text) as int;
        if n >= text.len() {
            seq![text]
        } else {
            seq![without_cr(text.take(n))] + lines_of(text.skip(n + 1))
        }
    }
}

#[via_fn]
proof fn lines_of_decreases(text: Seq<char>) {
}

/// The names that a favorites file with the content `text` lists: its lines
/// that are not empty.
pub open spec fn favorite_lines(text: Seq<char>) -> Set<Seq<char>> {
    Set::new(|name: Seq<char>| name.len() > 0 && lines_of(text).contains(name))
}

/// The first line of `text` ends within `text`, and holds no line feed.
pub proof fn lemma_first_line(text: Seq<char>)
    ensures
        first_line_len(text) <= text.len(),
        forall|i: int| 0 <= i < first_line_len(text) ==> text[i] != '\n',
        first_line_len(text) < text.len() ==> text[first_line_len(text) as int] == '\n',
    decreases text.len(),
{
    if text.len() == 0 || text[0] == '\n' {
    } else {
        let rest = text.drop_first();
        lemma_first_line(rest);
        assert forall|i: int| 0 <= i < first_line_len(text) implies text[i] != '\n' by {
            if i > 0 {
                assert(text[i] == rest[i - 1]);
            }
        }
        if first_line_len(text) < text.len() {
            assert(text[first_line_len(text) as int] == rest[first_line_len(rest) as int]);
        }
    }
}

/// Where the first line feed of `text` stands is where its first line ends.
pub proof fn lemma_first_line_is(text: Seq<char>, n: int)
    requires
        0 <= n <= text.len(),
        forall|i: int| 0 <= i < n ==> text[i] != '\n',
        n < text.len() ==> text[n] == '\n',
    ensures
        first_line_len(text) == n,
{
    lemma_first_line(text);
}

/// A line, a line feed, and more text: the line without its carriage return
/// is the first line, and the lines of the rest follow.
pub proof fn lemma_lines_after_feed(line: Seq<char>, rest: Seq<char>)
    requires
        forall|i: int| 0 <= i < line.len() ==> line[i] != '\n',
    ensures
        lines_of(line + seq!['\n'] + rest) == seq![without_cr(line)] + lines_of(rest),
{
    let text = line + seq!['\n'] + rest;
    lemma_first_line_is(text, line.len() as int);
    assert(text.take(line.len() as int) =~= line);
    assert(text.skip(line.len() as int + 1) =~= rest);
}

/// Text without a line feed is one line, or none if it is empty.
pub proof fn lemma_lines_of_last(line: Seq<char>)
    requires
        forall|i: int| 0 <= i < line.len() ==> line[i] != '\n',
    ensures
        lines_of(line) == if line.len() == 0 {
            Seq::<Seq<char>>::empty()
        } else {
            seq![line]
        },
{
    lemma_first_line_is(line, line.len() as int);
}

/// One more name at the end goes behind a line feed, unless it is the first.
pub proof fn lemma_join_lines_push(names: Seq<Seq<char>>, name: Seq<char>)
    ensures
        join_lines(names.push(name)) == if names.len() == 0 {
            name
        } else {
            join_lines(names) + seq!['\n'] + name
        },
    decreases names.len(),
{
    let longer = names.push(name);
    if names.len() == 0 {
    } else {
        assert(longer.drop_first() =~= names.drop_first().push(name));
        lemma_join_lines_push(names.drop_first(), name);
        if names.len() == 1 {
            assert(names.drop_first().len() == 0);
        } else {
            assert(join_lines(longer) =~= join_lines(names) + seq!['\n'] + name);
        }
    }
}

/// Reads `bytes` as UTF-8 text.
///
/// Trusted: `std::str::from_utf8` accepts exactly the byte strings that are
/// valid UTF-8, and the text it hands back is made of the given bytes.
#[verifier::external_body]
fn decode_text(bytes: &[u8]) -> (text: Option<String>)
    ensures
        text is Some <==> valid_utf8(bytes@),
        text matches Some(t) ==> encode_utf8(t@) == bytes@,
{
    match std::str::from_utf8(bytes) {
        Ok(text) => Some(text.to_owned()),
        Err(_) => None,
    }
}

/// The text that `content` encodes, if it is UTF-8.
pub fn read_text(content: &[u8]) -> (text: Option<String>)
    ensures
        text is Some <==> valid_utf8(content@),
        text matches Some(t) ==> t@ == decode_utf8(content@),
{
    let text = decode_text(content);
    proof {
        if text is Some {
            encode_utf8_decode_utf8(text->Some_0@);
        }
    }
    text
}

/// The content of a favorites file that lists `names` in their order.
pub fn render_favorites(names: &Vec<String>) -> (content: String)
    ensures
        content@ == join_lines(names.deep_view()),
{
    let mut content = String::new();
    let mut i: usize = 0;
    assert(names.deep_view().take(0) =~= Seq::<Seq<char>>::empty());
    while i < names.len()
        invariant
            i <= names.len(),
            content@ == join_lines(names.deep_view().take(i as int)),
        decreases names.len() - i,
    {
        proof {
            reveal_strlit("\n");
            let seen = names.deep_view().take(i as int);
            assert(names.deep_view().take(i + 1) =~= seen.push(names[i as int]@));
            lemma_join_lines_push(seen, names[i as int]@);
            assert("\n"@ =~= seq!['\n']);
        }
        if i > 0 {
            content.append("\n");
        }
        content.append(names[i].as_str());
        i += 1;
    }
    assert(names.deep_view().take(i as int) =~= names.deep_view());
    content
}

/// Appends one character to `text`.
///
/// Trusted: `String::push` puts the character at the end and changes nothing
/// else.
#[verifier::external_body]
fn push_char(text: &mut String, c: char)
    ensures
        final(text)@ == old(text)@.push(c),
{
    text.push(c);
}

/// The names listed in a favorites file with the content `text`.
pub fn parse_favorites(text: &str) -> (names: NameSet)
    ensures
        names@ == favorite_lines(text@),
{
    let mut names = NameSet::new();
    let mut line = String::new();
    let mut pending_cr = false;
    let ghost mut done: Seq<Seq<char>> = Seq::empty();
    let ghost mut cur: Seq<char> = Seq::empty();
    assert(cur + text@.skip(0) =~= text@);
    for c in it: text.chars()
        invariant
            it.seq() == text@,
            cur == if pending_cr { line@.push('\r') } else { line@ },
            !pending_cr ==> line@.len() == 0 || line@.last() != '\r',
            forall|i: int| 0 <= i < cur.len() ==> cur[i] != '\n',
            lines_of(text@) == done + lines_of(cur + text@.skip(it.index())),
            names@ == Set::new(|name: Seq<char>| name.len() > 0 && done.contains(name)),
    {
        let ghost rest = text@.skip(it.index() + 1);
        assert(text@.skip(it.index()) =~= seq![c] + rest);
        if c == '\n' {
            proof {
                lemma_lines_after_feed(cur, rest);
                assert(cur + text@.skip(it.index()) =~= cur + seq!['\n'] + rest);
                assert(without_cr(cur) == line@);
                let longer = done.push(line@);
                assert(done + (seq![line@] + lines_of(rest)) =~= longer + lines_of(
                    Seq::<char>::empty() + rest,
                )) by {
                    assert(Seq::<char>::empty() + rest =~= rest);
                }
                assert forall|name: Seq<char>| longer.contains(name) <==> done.contains(name)
                    || name == line@ by {
                    lemma_seq_contains_after_push(done, line@, name);
                }
                done = longer;
                cur = Seq::empty();
            }
            if !line.as_str().is_empty() {
                names.insert(line);
                assert(names@ =~= Set::new(
                    |name: Seq<char>| name.len() > 0 && done.contains(name),
                ));
            } else {
                assert(names@ =~= Set::new(
                    |name: Seq<char>| name.len() > 0 && done.contains(name),
                ));
            }
            line = String::new();
            pending_cr = false;
        } else {
            if pending_cr {
                push_char(&mut line, '\r');
            }
            if c == '\r' {
                pending_cr = true;
            } else {
                pending_cr = false;
                push_char(&mut line, c);
            }
            proof {
                let longer = cur.push(c);
                assert(longer + rest =~= cur + text@.skip(it.index()));
                cur = longer;
            }
        }
    }
    if pending_cr {
        push_char(&mut line, '\r');
    }
    proof {
        assert(text@.skip(text@.len() as int) =~= Seq::<char>::empty());
        assert(cur + Seq::<char>::empty() =~= cur);
        lemma_lines_of_last(cur);
        assert(line@ == cur);
    }
    if !line.as_str().is_empty() {
        proof {
            let all = done.push(line@);
            assert(lines_of(text@) =~= all);
            assert forall|name: Seq<char>| all.contains(name) <==> done.contains(name) || name
                == line@ by {
                lemma_seq_contains_after_push(done, line@, name);
            }
        }
        names.insert(line);
        assert(names@ =~= favorite_lines(text@));
    } else {
        assert(lines_of(text@) =~= done);
        assert(names@ =~= favorite_lines(text@));
    }
    names
}

} // verus!
