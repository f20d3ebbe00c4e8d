//! Lines of a text: how a text splits into lines, how lines join back into a
//! text, and when the two undo each other.

use vstd::prelude::*;
use crate::chars::{chars_of, not_newline};
use crate::runs::{prefix_run, lemma_prefix_run, lemma_prefix_run_is};

verus! {

/// `l` holds no line feed.
pub open spec fn no_newline(l: Seq<char>) -> bool {
    forall|j: int| 0 <= j < l.len() ==> l[j] != '\n'
}

/// `l` ends in a carriage return.
pub open spec fn ends_with_cr(l: Seq<char>) -> bool {
    l.len() > 0 && l.last() == '\r'
}

/// `l` without the carriage return it ends in, if it ends in one.
pub open spec fn strip_cr(l: Seq<char>) -> Seq<char> {
    if ends_with_cr(l) {
        l.drop_last()
    } else {
        l
    }
}

/// The lines of a text. A line ends at a line feed, and a carriage return
/// just before that line feed belongs to the line ending too. What follows
/// the last line feed is a line of its own unless it is empty, so a text
/// with a final line ending has the same lines as the text without it.
pub open spec fn lines_of(s: Seq<char>) -> Seq<Seq<char>>
    decreases s.len(),
{
    let n = prefix_run(s, not_newline());
    if s.len() == 0 {
        Seq::empty()
    } else if 0 <= n < s.len() {
        seq![strip_cr(s.take(n))] + lines_of(s.skip(n + 1))
    } else {
        seq![s]
    }
}

/// The text made of `lines` with a line feed between each two neighbours.
pub open spec fn join_lines(lines: Seq<Seq<char>>) -> Seq<char>
    decreases lines.len(),
{
    if lines.len() == 0 {
        Seq::empty()
    } else if lines.len() == 1 {
        lines[0]
    } else {
        lines[0] + seq!['\n'] + join_lines(lines.skip(1))
    }
}

/// A line that reads back as itself when a line ending follows it: it holds
/// no line feed and does not end in a carriage return.
pub open spec fn plain_line(l: Seq<char>) -> bool {
    no_newline(l) && !ends_with_cr(l)
}

/// The views of the lines held in `lines`.
pub open spec fn line_views(lines: Seq<Vec<char>>) -> Seq<Seq<char>> {
    Seq::new(lines.len(), |i: int| lines[i]@)
}

/// A text that starts with a line free of line feeds, then a line feed,
/// has that line (less its carriage return) as first line, and the lines
/// of the rest after it.
pub proof fn lemma_lines_cons(a: Seq<char>, b: Seq<char>)
    requires
        no_newline(a),
    ensures
        lines_of(a + seq!['\n'] + b) == seq![strip_cr(a)] + lines_of(b),
{
    let s = a + seq!['\n'] + b;
    assert forall|j: int| 0 <= j < a.len() implies not_newline()(#[trigger] s[j]) by {
        assert(s[j] == a[j]);
    }
    assert(s[a.len() as int] == '\n');
    lemma_prefix_run_is(s, not_newline(), a.len() as int);
    assert(s.take(a.len() as int) =~= a);
    assert(s.skip(a.len() as int + 1) =~= b);
}

/// A text without a line feed is its own single line, unless it is empty.
pub proof fn lemma_lines_single(a: Seq<char>)
    requires
        no_newline(a),
    ensures
        lines_of(a) == if a.len() == 0 {
            Seq::<Seq<char>>::empty()
        } else {
            seq![a]
        },
{
    assert forall|j: int| 0 <= j < a.len() implies not_newline()(#[trigger] a[j]) by {}
    lemma_prefix_run_is(a, not_newline(), a.len() as int);
}

/// No line of a text holds a line feed.
pub proof fn lemma_lines_have_no_newline(s: Seq<char>)
    ensures
        forall|i: int| 0 <= i < lines_of(s).len() ==> no_newline(#[trigger] lines_of(s)[i]),
    decreases s.len(),
{
    let n = prefix_run(s, not_newline());
    lemma_prefix_run(s, not_newline());
    if s.len() == 0 {
    } else if n < s.len() {
        lemma_lines_have_no_newline(s.skip(n + 1));
        let head = strip_cr(s.take(n));
        assert forall|j: int| 0 <= j < head.len() implies head[j] != '\n' by {
            assert(not_newline()(s[j]));
        }
        assert forall|i: int| 0 <= i < lines_of(s).len() implies no_newline(
            #[trigger] lines_of(s)[i],
        ) by {
            if i > 0 {
                assert(lines_of(s)[i] == lines_of(s.skip(n + 1))[i - 1]);
            }
        }
    } else {
        assert forall|j: int| 0 <= j < s.len() implies s[j] != '\n' by {
            assert(not_newline()(s[j]));
        }
    }
}

/// Joining one more line onto `lines` appends a line feed and the line,
/// or the line alone where there was none before.
pub proof fn lemma_join_push(lines: Seq<Seq<char>>, l: Seq<char>)
    ensures
        join_lines(lines.push(l)) == if lines.len() == 0 {
            l
        } else {
            join_lines(lines) + seq!['\n'] + l
        },
    decreases lines.len(),
{
    let all = lines.push(l);
    if lines.len() == 0 {
    } else if lines.len() == 1 {
        assert(all.skip(1) =~= seq![l]);
        assert(join_lines(all.skip(1)) == l);
    } else {
        lemma_join_push(lines.skip(1), l);
        assert(all.skip(1) =~= lines.skip(1).push(l));
        assert(all[0] == lines[0]);
        assert(join_lines(all) =~= join_lines(lines) + seq!['\n'] + l);
    }
}

/// What splitting makes of lines that were joined: each line but the last
/// loses the carriage return it ends in, and a last line that is empty is
/// gone.
pub open spec fn resplit(lines: Seq<Seq<char>>) -> Seq<Seq<char>> {
    let n = lines.len() as int;
    let kept = if n > 0 && lines.last().len() == 0 {
        n - 1
    } else {
        n
    };
    Seq::new(
        kept as nat,
        |i: int|
            if i < n - 1 {
                strip_cr(lines[i])
            } else {
                lines[i]
            },
    )
}

/// The lines survive joining and splitting.
pub open spec fn splits_back(lines: Seq<Seq<char>>) -> bool {
    lines_of(join_lines(lines)) == lines
}

/// Splitting the text joined from lines without line feeds gives
/// `resplit` of them.
pub proof fn lemma_lines_of_join(lines: Seq<Seq<char>>)
    requires
        forall|i: int| 0 <= i < lines.len() ==> no_newline(#[trigger] lines[i]),
    ensures
        lines_of(join_lines(lines)) == resplit(lines),
    decreases lines.len(),
{
    if lines.len() == 0 {
        assert(resplit(lines) =~= Seq::<Seq<char>>::empty());
    } else if lines.len() == 1 {
        lemma_lines_single(lines[0]);
        assert(resplit(lines) =~= lines_of(lines[0]));
    } else {
        let rest = lines.skip(1);
        assert forall|i: int| 0 <= i < rest.len() implies no_newline(#[trigger] rest[i]) by {
            assert(rest[i] == lines[i + 1]);
        }
        assert(rest.last() == lines.last());
        lemma_lines_of_join(rest);
        lemma_lines_cons(lines[0], join_lines(rest));
        assert(seq![strip_cr(lines[0])] + resplit(rest) =~= resplit(lines));
    }
}

/// Lines survive joining and splitting exactly if none of them holds a
/// line feed, none but the last ends in a carriage return, and the last
/// is not empty.
pub proof fn lemma_splits_back(lines: Seq<Seq<char>>)
    ensures
        splits_back(lines) <==> {
            &&& forall|i: int| 0 <= i < lines.len() ==> no_newline(#[trigger] lines[i])
            &&& forall|i: int| 0 <= i < lines.len() - 1 ==> !ends_with_cr(#[trigger] lines[i])
            &&& lines.len() > 0 ==> lines.last().len() > 0
        },
{
    if splits_back(lines) {
        lemma_lines_have_no_newline(join_lines(lines));
    }
    if forall|i: int| 0 <= i < lines.len() ==> no_newline(#[trigger] lines[i]) {
        lemma_lines_of_join(lines);
        if splits_back(lines) {
            assert(resplit(lines).len() == lines.len());
            assert forall|i: int| 0 <= i < lines.len() - 1 implies !ends_with_cr(
                #[trigger] lines[i],
            ) by {
                assert(resplit(lines)[i] == strip_cr(lines[i]));
            }
        }
        if (forall|i: int| 0 <= i < lines.len() - 1 ==> !ends_with_cr(#[trigger] lines[i])) && (
        lines.len() > 0 ==> lines.last().len() > 0) {
            assert(resplit(lines) =~= lines);
        }
    }
}

/// Two sequences of lines without line feeds that join to the same text
/// are the same, unless one is empty and the other holds one empty line.
pub proof fn lemma_join_is_injective(a: Seq<Seq<char>>, b: Seq<Seq<char>>)
    requires
        forall|i: int| 0 <= i < a.len() ==> no_newline(#[trigger] a[i]),
        forall|i: int| 0 <= i < b.len() ==> no_newline(#[trigger] b[i]),
        join_lines(a) == join_lines(b),
    ensures
        a == b || a.len() + b.len() == 1,
    decreases a.len(),
{
    let s = join_lines(a);
    lemma_first_line_of_join(a);
    lemma_first_line_of_join(b);
    if a.len() >= 2 {
        let n = a[0].len() as int;
        assert(b.len() >= 2);
        assert(a[0] =~= s.take(n));
        assert(b[0] =~= s.take(n));
        assert(join_lines(a.skip(1)) =~= s.skip(n + 1));
        assert(join_lines(b.skip(1)) =~= s.skip(n + 1));
        assert forall|i: int| 0 <= i < a.skip(1).len() implies no_newline(
            #[trigger] a.skip(1)[i],
        ) by {
            assert(a.skip(1)[i] == a[i + 1]);
        }
        assert forall|i: int| 0 <= i < b.skip(1).len() implies no_newline(
            #[trigger] b.skip(1)[i],
        ) by {
            assert(b.skip(1)[i] == b[i + 1]);
        }
        lemma_join_is_injective(a.skip(1), b.skip(1));
        assert(a =~= seq![a[0]] + a.skip(1));
        assert(b =~= seq![b[0]] + b.skip(1));
    } else {
        assert(b.len() <= 1);
        if a.len() == 1 && b.len() == 1 {
            assert(a =~= b);
        } else if a.len() == 0 && b.len() == 0 {
            assert(a =~= b);
        }
    }
}

/// Where the first line of a joined text ends: at the first line feed
/// where there are two lines or more, else at the end of the text.
pub proof fn lemma_first_line_of_join(lines: Seq<Seq<char>>)
    requires
        forall|i: int| 0 <= i < lines.len() ==> no_newline(#[trigger] lines[i]),
    ensures
        prefix_run(join_lines(lines), not_newline()) == if lines.len() >= 2 {
            lines[0].len()
        } else {
            join_lines(lines).len()
        },
        lines.len() >= 2 ==> lines[0].len() < join_lines(lines).len(),
{
    let s = join_lines(lines);
    if lines.len() >= 2 {
        let n = lines[0].len() as int;
        assert(no_newline(lines[0]));
        assert forall|j: int| 0 <= j < n implies not_newline()(#[trigger] s[j]) by {
            assert(s[j] == lines[0][j]);
        }
        assert(s[n] == '\n');
        lemma_prefix_run_is(s, not_newline(), n);
    } else if lines.len() == 1 {
        assert(no_newline(lines[0]));
        assert forall|j: int| 0 <= j < s.len() implies not_newline()(#[trigger] s[j]) by {}
        lemma_prefix_run_is(s, not_newline(), s.len() as int);
    } else {
        lemma_prefix_run_is(s, not_newline(), 0);
    }
}

/// Splits a text into its lines.
pub fn split_lines(text: &Vec<char>) -> (lines: Vec<Vec<char>>)
    ensures
        line_views(lines@) == lines_of(text@),
{
    let mut lines: Vec<Vec<char>> = Vec::new();
    let mut cur: Vec<char> = Vec::new();
    let mut i: usize = 0;
    let ghost mut k: int = 0;
    proof {
        assert(text@.skip(0) =~= text@);
        assert(line_views(lines@) + lines_of(text@) =~= lines_of(text@));
    }
    while i < text.len()
        invariant
            0 <= k <= i <= text.len(),
            cur@ == text@.subrange(k, i as int),
            no_newline(cur@),
            lines_of(text@) == line_views(lines@) + lines_of(text@.skip(k)),
        decreases text.len() - i,
    {
        let c = text[i];
        if c == '\n' {
            proof {
                assert(text@.skip(k) =~= cur@ + seq!['\n'] + text@.skip(i + 1));
                lemma_lines_cons(cur@, text@.skip(i + 1));
            }
            let ghost whole = cur@;
            if cur.len() > 0 && cur[cur.len() - 1] == '\r' {
                cur.pop();
            }
            assert(cur@ == strip_cr(whole));
            let ghost before = line_views(lines@);
            lines.push(cur);
            cur = Vec::new();
            proof {
                assert(line_views(lines@) =~= before.push(strip_cr(whole)));
                assert(before + (seq![strip_cr(whole)] + lines_of(text@.skip(i + 1)))
                    =~= before.push(strip_cr(whole)) + lines_of(text@.skip(i + 1)));
                k = i + 1;
                assert(cur@ =~= text@.subrange(k, i + 1));
            }
        } else {
            cur.push(c);
            assert(cur@ =~= text@.subrange(k, i + 1));
        }
        i += 1;
    }
    proof {
        assert(text@.skip(k) =~= cur@);
        lemma_lines_single(cur@);
    }
    if cur.len() > 0 {
        let ghost before = line_views(lines@);
        let ghost last = cur@;
        lines.push(cur);
        assert(line_views(lines@) =~= before + seq![last]);
    } else {
        assert(line_views(lines@) + Seq::<Seq<char>>::empty() =~= line_views(lines@));
    }
    lines
}

/// The lines of `text`.
pub fn lines_of_str(text: &str) -> (lines: Vec<Vec<char>>)
    ensures
        line_views(lines@) == lines_of(text@),
{
    let chars = chars_of(text);
    split_lines(&chars)
}

/// Writes one more line to a text that is being joined from `done`.
pub(crate) fn emit_line(out: &mut String, line: &Vec<char>, Ghost(done): Ghost<Seq<Seq<char>>>, fresh: bool)
    requires
        old(out)@ == join_lines(done),
        fresh == (done.len() == 0),
    ensures
        final(out)@ == join_lines(done.push(line@)),
{
    if !fresh {
        out.push('\n');
    }
    let ghost start = out@;
    let mut i: usize = 0;
    while i < line.len()
        invariant
            i <= line.len(),
            out@ == start + line@.take(i as int),
        decreases line.len() - i,
    {
        out.push(line[i]);
        assert(line@.take(i + 1) =~= line@.take(i as int).push(line@[i as int]));
        assert(out@ =~= start + line@.take(i + 1));
        i += 1;
    }
    proof {
        assert(line@.take(i as int) =~= line@);
        lemma_join_push(done, line@);
        assert(join_lines(done) + seq!['\n'] =~= join_lines(done).push('\n'));
    }
}

/// Writes the lines `lines[from..to]` to a text that is being joined from
/// `done`. Returns whether the text still holds no line at all.
pub(crate) fn emit_lines(
    out: &mut String,
    lines: &Vec<Vec<char>>,
    from: usize,
    to: usize,
    Ghost(done): Ghost<Seq<Seq<char>>>,
    fresh: bool,
) -> (still_fresh: bool)
    requires
        from <= to <= lines.len(),
        old(out)@ == join_lines(done),
        fresh == (done.len() == 0),
    ensures
        final(out)@ == join_lines(done + line_views(lines@).subrange(from as int, to as int)),
        still_fresh == (fresh && from == to),
{
    let mut i: usize = from;
    let mut fresh_now = fresh;
    let ghost all = line_views(lines@);
    proof {
        assert(done + all.subrange(from as int, from as int) =~= done);
    }
    while i < to
        invariant
            from <= i <= to <= lines.len(),
            all == line_views(lines@),
            out@ == join_lines(done + all.subrange(from as int, i as int)),
            fresh_now == (fresh && i == from),
            fresh == (done.len() == 0),
        decreases to - i,
    {
        let ghost so_far = done + all.subrange(from as int, i as int);
        emit_line(out, &lines[i], Ghost(so_far), fresh_now);
        proof {
            assert(so_far.push(lines@[i as int]@) =~= done + all.subrange(from as int, i + 1));
        }
        fresh_now = false;
        i += 1;
    }
    fresh_now
}

} // verus!
