//! How the operating system's programs split the parameters of a command line into arguments.

use vstd::prelude::*;
use vstd::string::*;

use crate::text;

verus! {

broadcast use vstd::string::group_string_axioms;

/// A blank between arguments.
pub open spec fn is_blank(c: char) -> bool {
    c == ' ' || c == '\t'
}

/// A line without the blanks at its start.
pub open spec fn skip_blanks(line: Seq<char>) -> Seq<char>
    decreases line.len(),
{
    if line.len() > 0 && is_blank(line[0]) {
        skip_blanks(line.skip(1))
    } else {
        line
    }
}

/// Skipping blanks makes no line longer.
pub proof fn lemma_skip_blanks(line: Seq<char>)
    ensures
        skip_blanks(line).len() <= line.len(),
    decreases line.len(),
{
    if line.len() > 0 && is_blank(line[0]) {
        lemma_skip_blanks(line.skip(1));
    }
}

/// How many backslashes a line starts with.
pub open spec fn backslashes(line: Seq<char>) -> nat
    decreases line.len(),
{
    if line.len() > 0 && line[0] == '\\' {
        1 + backslashes(line.skip(1))
    } else {
        0
    }
}

/// A line's leading backslashes are all of them, and no more.
pub proof fn lemma_backslashes(line: Seq<char>)
    ensures
        backslashes(line) <= line.len(),
        forall|i: int| 0 <= i < backslashes(line) ==> line[i] == '\\',
        backslashes(line) < line.len() ==> line[backslashes(line) as int] != '\\',
    decreases line.len(),
{
    if line.len() > 0 && line[0] == '\\' {
        let rest = line.skip(1);
        lemma_backslashes(rest);
        assert forall|i: int| 0 <= i < backslashes(line) implies line[i] == '\\' by {
            if i > 0 {
                assert(rest[i - 1] == '\\');
            }
        }
    }
}

/// A row of backslashes.
pub open spec fn backslash_row(n: nat) -> Seq<char> {
    Seq::new(n, |i: int| '\\')
}

/// The arguments in the rest of a line, where the current argument so far reads `current` and
/// stands within quotes or not. Blanks outside quotes part the arguments. Quotes begin and end a
/// part in which blanks are ordinary; two of them within such a part stand for one. Backslashes are
/// ordinary unless a quote follows them: then each pair stands for one, and a single one that is
/// left makes the quote an ordinary character.
pub open spec fn arguments_from(line: Seq<char>, current: Seq<char>, quoted: bool) -> Seq<
    Seq<char>,
>
    decreases line.len(),
{
    if line.len() == 0 {
        if current.len() > 0 || quoted {
            seq![current]
        } else {
            Seq::empty()
        }
    } else if is_blank(line[0]) && !quoted {
        proof {
            lemma_skip_blanks(line.skip(1));
        }
        seq![current] + arguments_from(skip_blanks(line.skip(1)), Seq::empty(), false)
    } else if line[0] == '\\' {
        let n = backslashes(line);
        proof {
            lemma_backslashes(line);
        }
        if n < line.len() && line[n as int] == '"' {
            let kept = current + backslash_row(n / 2);
            if n % 2 == 1 {
                arguments_from(line.skip((n + 1) as int), kept.push('"'), quoted)
            } else {
                arguments_from(line.skip(n as int), kept, quoted)
            }
        } else {
            arguments_from(line.skip(n as int), current + backslash_row(n), quoted)
        }
    } else if line[0] == '"' && quoted {
        if line.len() == 1 {
            seq![current]
        } else if line[1] == '"' {
            arguments_from(line.skip(2), current.push('"'), true)
        } else {
            arguments_from(line.skip(1), current, false)
        }
    } else if line[0] == '"' {
        arguments_from(line.skip(1), current, true)
    } else {
        arguments_from(line.skip(1), current.push(line[0]), quoted)
    }
}

/// The arguments in the parameters of a command line.
pub open spec fn split_arguments(line: Seq<char>) -> Seq<Seq<char>> {
    arguments_from(skip_blanks(line), Seq::empty(), false)
}

/// How many backslashes a text ends with.
pub open spec fn trailing_backslashes(s: Seq<char>) -> nat
    decreases s.len(),
{
    if s.len() > 0 && s.last() == '\\' {
        1 + trailing_backslashes(s.drop_last())
    } else {
        0
    }
}

/// What stands for a text between quotes: the backslashes at its end are doubled, so that they do
/// not hide the closing quote.
pub open spec fn between_quotes(s: Seq<char>) -> Seq<char> {
    s + backslash_row(trailing_backslashes(s))
}

/// Makes what stands for a text between quotes.
pub fn guard_backslashes(s: &str) -> (res: String)
    ensures
        res@ == between_quotes(s@),
{
    let chars = text::chars_of(s);
    let mut res = String::from_str(s);
    let mut n: usize = chars.len();
    assert(s@.take(n as int) == s@);
    assert(s@ + backslash_row(0) == s@);
    while n > 0 && chars[n - 1] == '\\'
        invariant
            n <= chars.len(),
            chars@ == s@,
            res@ == s@ + backslash_row((s@.len() - n) as nat),
            trailing_backslashes(s@) == s@.len() - n + trailing_backslashes(s@.take(n as int)),
        decreases n,
    {
        assert(s@.take(n as int).drop_last() == s@.take(n - 1));
        res.push('\\');
        n = n - 1;
        assert(res@ =~= s@ + backslash_row((s@.len() - n) as nat));
    }
    res
}

proof fn lemma_trailing_backslashes(s: Seq<char>)
    ensures
        trailing_backslashes(s) <= s.len(),
        forall|i: int| s.len() - trailing_backslashes(s) <= i < s.len() ==> s[i] == '\\',
        trailing_backslashes(s) < s.len() ==> s[s.len() - trailing_backslashes(s) - 1] != '\\',
    decreases s.len(),
{
    if s.len() > 0 && s.last() == '\\' {
        let rest = s.drop_last();
        lemma_trailing_backslashes(rest);
        assert forall|i: int| s.len() - trailing_backslashes(s) <= i < s.len() implies s[i]
            == '\\' by {
            if i < rest.len() {
                assert(rest[i] == '\\');
            }
        }
    }
}

proof fn lemma_row_of_backslashes(n: nat, rest: Seq<char>)
    requires
        rest.len() > 0,
        rest[0] != '\\',
    ensures
        backslashes(backslash_row(n) + rest) == n,
    decreases n,
{
    let line = backslash_row(n) + rest;
    if n > 0 {
        let fewer = (n - 1) as nat;
        lemma_row_of_backslashes(fewer, rest);
        assert(line.skip(1) =~= backslash_row(fewer) + rest);
    } else {
        assert(line =~= rest);
    }
}

/// A text without blanks, quotes and backslashes.
pub open spec fn is_plain(s: Seq<char>) -> bool {
    forall|i: int|
        0 <= i < s.len() ==> !is_blank(#[trigger] s[i]) && s[i] != '"' && s[i] != '\\'
}

pub(crate) proof fn lemma_plain_text(
    plain: Seq<char>,
    rest: Seq<char>,
    current: Seq<char>,
    quoted: bool,
)
    requires
        is_plain(plain),
    ensures
        arguments_from(plain + rest, current, quoted) == arguments_from(
            rest,
            current + plain,
            quoted,
        ),
    decreases plain.len(),
{
    if plain.len() == 0 {
        assert(plain + rest == rest);
        assert(current + plain == current);
    } else {
        let line = plain + rest;
        let tail = plain.skip(1);
        assert(line[0] == plain[0]);
        assert(line.skip(1) == tail + rest);
        assert forall|i: int| 0 <= i < tail.len() implies !is_blank(#[trigger] tail[i])
            && tail[i] != '"' && tail[i] != '\\' by {
            assert(tail[i] == plain[i + 1]);
        }
        lemma_plain_text(tail, rest, current.push(plain[0]), quoted);
        assert(current.push(plain[0]) + tail == current + plain);
    }
}

/// One plain argument and the blank that ends it.
pub(crate) proof fn lemma_plain_argument(plain: Seq<char>, rest: Seq<char>)
    requires
        is_plain(plain),
        rest.len() > 0 ==> !is_blank(rest[0]),
    ensures
        arguments_from(plain + (seq![' '] + rest), Seq::empty(), false) == seq![plain]
            + arguments_from(rest, Seq::empty(), false),
{
    let tail = seq![' '] + rest;
    lemma_plain_text(plain, tail, Seq::empty(), false);
    assert(Seq::<char>::empty() + plain == plain);
    assert(tail.skip(1) == rest);
}

proof fn lemma_quoted_text(s: Seq<char>, rest: Seq<char>, current: Seq<char>)
    requires
        forall|i: int| 0 <= i < s.len() ==> s[i] != '"',
        s.len() > 0 ==> s.last() != '\\',
    ensures
        arguments_from(s + rest, current, true) == arguments_from(rest, current + s, true),
    decreases s.len(),
{
    let line = s + rest;
    if s.len() == 0 {
        assert(line == rest);
        assert(current + s == current);
    } else if s[0] == '\\' {
        let n = backslashes(line);
        lemma_backslashes(line);
        assert(line[0] == '\\');
        if n == 0 {
            assert(line[n as int] != '\\');
        }
        if n >= s.len() {
            assert(line[s.len() - 1] == s.last());
        }
        let tail = s.skip(n as int);
        assert(line[n as int] == s[n as int]);
        assert(line.skip(n as int) == tail + rest);
        assert forall|i: int| 0 <= i < tail.len() implies tail[i] != '"' by {
            assert(tail[i] == s[i + n]);
        }
        lemma_quoted_text(tail, rest, current + backslash_row(n));
        assert forall|i: int| 0 <= i < n implies s[i] == '\\' by {
            assert(line[i] == s[i]);
        }
        assert((current + backslash_row(n)) + tail =~= current + s);
    } else {
        let tail = s.skip(1);
        assert(line[0] == s[0]);
        assert(line.skip(1) == tail + rest);
        assert forall|i: int| 0 <= i < tail.len() implies tail[i] != '"' by {
            assert(tail[i] == s[i + 1]);
        }
        lemma_quoted_text(tail, rest, current.push(s[0]));
        assert(current.push(s[0]) + tail =~= current + s);
    }
}

/// One argument in quotes and the blank that ends it.
pub(crate) proof fn lemma_quoted_argument(s: Seq<char>, rest: Seq<char>)
    requires
        forall|i: int| 0 <= i < s.len() ==> s[i] != '"',
        rest.len() > 0 ==> !is_blank(rest[0]),
    ensures
        arguments_from(
            seq!['"'] + (between_quotes(s) + (seq!['"', ' '] + rest)),
            Seq::empty(),
            false,
        ) == seq![s] + arguments_from(rest, Seq::empty(), false),
{
    let end = seq!['"', ' '] + rest;
    let line = seq!['"'] + (between_quotes(s) + end);
    let n = trailing_backslashes(s);
    lemma_trailing_backslashes(s);
    let body = s.take(s.len() - n);
    let tail = backslash_row(2 * n) + end;
    assert(line.skip(1) =~= body + tail);
    lemma_quoted_text(body, tail, Seq::empty());
    assert(Seq::<char>::empty() + body == body);
    if n > 0 {
        lemma_row_of_backslashes(2 * n, end);
        assert(tail[0] == '\\');
        assert(tail.skip((2 * n) as int) =~= end);
        assert(body + backslash_row(n) =~= s);
        assert(arguments_from(tail, body, true) == arguments_from(end, s, true));
    } else {
        assert(tail =~= end);
        assert(body =~= s);
    }
    let blank = seq![' '] + rest;
    assert(end.skip(1) == blank);
    assert(blank.skip(1) == rest);
    assert(arguments_from(blank, s, false) == seq![s] + arguments_from(rest, Seq::empty(), false));
}

} // verus!
