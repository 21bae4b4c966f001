use vstd::prelude::*;

verus! {

/// The characters of `s` after its last newline (all of `s` when it has none).
pub open spec fn pending(s: Seq<char>) -> Seq<char>
    decreases s.len(),
{
    if s.len() == 0 {
        Seq::empty()
    } else if s.last() == '\n' {
        Seq::empty()
    } else {
        pending(s.drop_last()).push(s.last())
    }
}

/// A line without the carriage return that ended it, if it had one.
pub open spec fn without_cr(line: Seq<char>) -> Seq<char> {
    if line.len() > 0 && line.last() == '\r' {
        line.drop_last()
    } else {
        line
    }
}

/// The lines of `s` that a newline ends, in order, each without its
/// terminator (`"\n"` or `"\r\n"`).
pub open spec fn ended_lines(s: Seq<char>) -> Seq<Seq<char>>
    decreases s.len(),
{
    if s.len() == 0 {
        Seq::empty()
    } else if s.last() == '\n' {
        ended_lines(s.drop_last()).push(without_cr(pending(s.drop_last())))
    } else {
        ended_lines(s.drop_last())
    }
}

/// The lines of a text: those that a newline ends, then the text after the
/// last newline when that is not empty. A final newline adds no empty line.
pub open spec fn lines_of(s: Seq<char>) -> Seq<Seq<char>> {
    if pending(s).len() == 0 {
        ended_lines(s)
    } else {
        ended_lines(s).push(pending(s))
    }
}

/// How many newlines `s` holds.
pub open spec fn newline_count(s: Seq<char>) -> nat
    decreases s.len(),
{
    if s.len() == 0 {
        0
    } else if s.last() == '\n' {
        newline_count(s.drop_last()) + 1
    } else {
        newline_count(s.drop_last())
    }
}

/// A text has one line for each newline, and one more when text follows
/// the last newline; so an empty text has no line, and a final newline
/// adds none.
pub proof fn lemma_line_count(s: Seq<char>)
    ensures
        lines_of(s).len() == newline_count(s) + if pending(s).len() > 0 { 1nat } else { 0nat },
        s.len() == 0 ==> lines_of(s).len() == 0,
        s.len() > 0 && s.last() == '\n' ==> lines_of(s).len() == newline_count(s),
        s.len() > 0 && s.last() != '\n' ==> lines_of(s).len() == newline_count(s) + 1,
{
    lemma_ended_count(s);
    if s.len() > 0 && s.last() != '\n' {
        assert(pending(s).len() > 0);
    }
}

proof fn lemma_ended_count(s: Seq<char>)
    ensures
        ended_lines(s).len() == newline_count(s),
    decreases s.len(),
{
    if s.len() > 0 {
        lemma_ended_count(s.drop_last());
    }
}

/// No line of a text holds a newline.
pub proof fn lemma_lines_hold_no_newline(s: Seq<char>)
    ensures
        forall|i: int, j: int|
            0 <= i < lines_of(s).len() && 0 <= j < lines_of(s)[i].len()
                ==> #[trigger] lines_of(s)[i][j] != '\n',
{
    lemma_pending_no_newline(s);
    lemma_ended_no_newline(s);
}

proof fn lemma_pending_no_newline(s: Seq<char>)
    ensures
        forall|j: int| 0 <= j < pending(s).len() ==> #[trigger] pending(s)[j] != '\n',
    decreases s.len(),
{
    if s.len() > 0 && s.last() != '\n' {
        let p = pending(s.drop_last());
        lemma_pending_no_newline(s.drop_last());
        assert forall|j: int| 0 <= j < pending(s).len()
            implies #[trigger] pending(s)[j] != '\n' by {
            if j < p.len() {
                assert(pending(s)[j] == p[j]);
            }
        }
    }
}

proof fn lemma_ended_no_newline(s: Seq<char>)
    ensures
        forall|i: int, j: int|
            0 <= i < ended_lines(s).len() && 0 <= j < ended_lines(s)[i].len()
                ==> #[trigger] ended_lines(s)[i][j] != '\n',
    decreases s.len(),
{
    if s.len() > 0 {
        let e = ended_lines(s.drop_last());
        let p = pending(s.drop_last());
        lemma_ended_no_newline(s.drop_last());
        lemma_pending_no_newline(s.drop_last());
        if s.last() == '\n' {
            assert forall|i: int, j: int|
                0 <= i < ended_lines(s).len() && 0 <= j < ended_lines(s)[i].len()
                    implies #[trigger] ended_lines(s)[i][j] != '\n' by {
                if i == e.len() {
                    assert(ended_lines(s)[i] == without_cr(p));
                    assert(without_cr(p)[j] == p[j]);
                } else {
                    assert(ended_lines(s)[i] == e[i]);
                }
            }
        }
    }
}

/// The character of a decimal digit.
pub open spec fn digit_char(d: nat) -> char {
    ((d + 48) as u8) as char
}

/// The decimal notation of `n`, without leading zeros.
pub open spec fn decimal(n: nat) -> Seq<char>
    decreases n,
{
    if n < 10 {
        seq![digit_char(n)]
    } else {
        decimal(n / 10).push(digit_char(n % 10))
    }
}

/// How the line at 0-based `index` is shown: as it is, or after its
/// 1-based number and a space.
pub open spec fn display_line(number: bool, index: int, line: Seq<char>) -> Seq<char> {
    if number {
        decimal((index + 1) as nat) + seq![' '] + line
    } else {
        line
    }
}

/// The display lines of a text, one for each of its lines, in order.
pub open spec fn display_lines(number: bool, contents: Seq<char>) -> Seq<Seq<char>> {
    let lines = lines_of(contents);
    Seq::new(lines.len(), |i: int| display_line(number, i, lines[i]))
}

/// Relies on `String`'s `FromIterator<char>`: the string holds the given
/// characters, in order.
#[verifier::external_body]
fn string_of(chars: Vec<char>) -> (r: String)
    ensures
        r@ == chars@,
{
    String::from_iter(chars)
}

fn digit_of(d: usize) -> (c: char)
    requires
        d < 10,
    ensures
        c == digit_char(d as nat),
{
    ((d as u8) + 48) as char
}

/// Appends the decimal notation of `n` to `out`.
fn push_decimal(out: &mut Vec<char>, n: usize)
    ensures
        final(out)@ == old(out)@ + decimal(n as nat),
    decreases n,
{
    if n >= 10 {
        push_decimal(out, n / 10);
    }
    out.push(digit_of(n % 10));
}

/// Splits a text into its lines, as `lines_of` states.
fn split_lines(contents: &str) -> (r: Vec<Vec<char>>)
    ensures
        r.deep_view() == lines_of(contents@),
{
    let mut done: Vec<Vec<char>> = Vec::new();
    let mut cur: Vec<char> = Vec::new();
    for c in it: contents.chars()
        invariant
            it.seq() == contents@,
            done.deep_view() == ended_lines(contents@.take(it.index() as int)),
            cur@ == pending(contents@.take(it.index() as int)),
    {
        let ghost seen = contents@.take(it.index() as int);
        let ghost next = contents@.take(it.index() + 1);
        assert(next.drop_last() =~= seen);
        assert(next.last() == c);
        if c == '\n' {
            if cur.len() > 0 && cur[cur.len() - 1] == '\r' {
                let _ = cur.pop();
            }
            assert(cur@ =~= without_cr(pending(seen)));
            assert(cur.deep_view() =~= cur@);
            done.push(cur);
            assert(done.deep_view() =~= ended_lines(next));
            cur = Vec::new();
            assert(cur@ =~= pending(next));
        } else {
            cur.push(c);
        }
    }
    assert(contents@.take(contents@.len() as int) =~= contents@);
    if cur.len() > 0 {
        assert(cur.deep_view() =~= cur@);
        done.push(cur);
        assert(done.deep_view() =~= lines_of(contents@));
    }
    done
}

/// Breaks the contents into lines, numbering them from 1 when `number` is set.
/// A final newline adds no empty line, and an empty text gives no line.
pub fn maybe_number(number: bool, contents: &str) -> (r: Vec<String>)
    ensures
        r.deep_view() == display_lines(number, contents@),
        r@.len() == lines_of(contents@).len(),
        !number ==> r.deep_view() == lines_of(contents@),
        number ==> forall|i: int|
            0 <= i < r@.len() ==> #[trigger] r@[i]@ == decimal((i + 1) as nat) + seq![' ']
                + lines_of(contents@)[i],
        contents@.len() == 0 ==> r@.len() == 0,
{
    let lines = split_lines(contents);
    let ghost want = display_lines(number, contents@);
    let mut output: Vec<String> = Vec::new();
    let n: usize = lines.len();
    let mut i: usize = 0;
    for line in it: lines
        invariant
            it.seq() == lines@,
            n == lines@.len(),
            lines.deep_view() == lines_of(contents@),
            want == display_lines(number, contents@),
            i == it.index(),
            output.deep_view() =~= want.take(i as int),
    {
        assert(line == lines@[i as int]);
        assert(line.deep_view() =~= line@);
        let mut text: Vec<char> = Vec::new();
        if number {
            push_decimal(&mut text, i + 1);
            text.push(' ');
        }
        let mut rest = line;
        text.append(&mut rest);
        let shown = string_of(text);
        assert(shown@ =~= want[i as int]);
        let ghost before = output.deep_view();
        output.push(shown);
        assert(output.deep_view() =~= before.push(shown@));
        i = i + 1;
    }
    assert(!number ==> display_lines(number, contents@) =~= lines_of(contents@));
    assert(output.deep_view().len() == output@.len());
    assert forall|i: int| 0 <= i < output@.len() implies #[trigger] output@[i]@ == want[i] by {
        assert(output.deep_view()[i] == output@[i]@);
    }
    output
}

} // verus!
