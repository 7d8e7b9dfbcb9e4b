//! The output parser: scans a test harness's combined output line by line,
//! recognises delimiter lines of the form `---- <name> ----`, and collects the
//! message block that follows each one, up to the first blank line (or the end
//! of the stream).
//!
//! Unrecognised lines are never an error: anything that is not a delimiter
//! line is skipped, so arbitrary harness chatter between failure blocks is
//! tolerated.
use vstd::prelude::*;

use crate::report::Failure;
use crate::text::{chars_to_string, str_chars, subvec_chars};

verus! {

/// Whitespace for the purpose of deciding that a line is blank.
pub open spec fn is_space_char(c: char) -> bool {
    c == ' ' || c == '\t' || c == '\r' || c == '\n'
}

/// A line is blank when every character on it is whitespace; in particular
/// the empty line is blank. A blank line closes a failure block.
pub open spec fn is_blank_line(l: Seq<char>) -> bool {
    forall|i: int| 0 <= i < l.len() ==> is_space_char(#[trigger] l[i])
}

/// The opening of a delimiter line: `---- `.
pub open spec fn delim_open() -> Seq<char> {
    seq!['-', '-', '-', '-', ' ']
}

/// The closing of a delimiter line: ` ----`.
pub open spec fn delim_close() -> Seq<char> {
    seq![' ', '-', '-', '-', '-']
}

/// A delimiter line has the exact form `---- <name> ----`, where `<name>` is
/// taken verbatim (it may itself contain spaces or `::` separators).
pub open spec fn is_delim_line(l: Seq<char>) -> bool {
    l.len() >= 10 && l.take(5) == delim_open() && l.skip(l.len() - 5) == delim_close()
}

/// The test name a delimiter line carries.
pub open spec fn delim_name(l: Seq<char>) -> Seq<char> {
    l.subrange(5, l.len() - 5)
}

/// Drops a single carriage return left at the end of a line read from a
/// stream with Windows line terminators.
pub open spec fn strip_cr(l: Seq<char>) -> Seq<char> {
    if l.len() > 0 && l[l.len() - 1] == '\r' {
        l.take(l.len() - 1)
    } else {
        l
    }
}

/// One step per character of splitting a stream into lines: `cur` is the line
/// being accumulated, `acc` the lines already complete. A final line without
/// a terminator still counts; a terminator at the very end adds no empty
/// line.
pub open spec fn split_rec(s: Seq<char>, cur: Seq<char>, acc: Seq<Seq<char>>) -> Seq<Seq<char>>
    decreases s.len(),
{
    if s.len() == 0 {
        if cur.len() == 0 {
            acc
        } else {
            acc.push(strip_cr(cur))
        }
    } else if s[0] == '\n' {
        split_rec(s.skip(1), Seq::empty(), acc.push(strip_cr(cur)))
    } else {
        split_rec(s.skip(1), cur.push(s[0]), acc)
    }
}

/// The lines of a stream: split on `\n`, with a trailing `\r` removed from
/// each line.
pub open spec fn spec_split_lines(s: Seq<char>) -> Seq<Seq<char>> {
    split_rec(s, Seq::empty(), Seq::empty())
}

/// How many lines at the front of `lines` belong to the open message block:
/// everything up to but excluding the first blank line.
pub open spec fn block_len(lines: Seq<Seq<char>>) -> nat
    decreases lines.len(),
{
    if lines.len() == 0 || is_blank_line(lines[0]) {
        0nat
    } else {
        1nat + block_len(lines.skip(1))
    }
}

/// Message lines joined back together with `\n`, without a trailing newline.
pub open spec fn join_lines(msgs: Seq<Seq<char>>) -> Seq<char>
    decreases msgs.len(),
{
    if msgs.len() == 0 {
        Seq::empty()
    } else if msgs.len() == 1 {
        msgs[0]
    } else {
        msgs[0] + seq!['\n'] + join_lines(msgs.skip(1))
    }
}

/// What parsing a sequence of lines yields: one `(name, message)` pair per
/// delimiter line, in input order. The message is the block that follows the
/// delimiter, closed by the first blank line (which is consumed) or the end
/// of the input.
pub open spec fn spec_parse_lines(lines: Seq<Seq<char>>) -> Seq<(Seq<char>, Seq<char>)>
    decreases lines.len(),
{
    if lines.len() == 0 {
        Seq::empty()
    } else if is_delim_line(lines[0]) {
        let rest = lines.skip(1);
        let k = block_len(rest) as int;
        let consumed = if k < rest.len() {
            k + 1
        } else {
            rest.len() as int
        };
        seq![(delim_name(lines[0]), join_lines(rest.take(k)))] + spec_parse_lines(
            rest.skip(consumed),
        )
    } else {
        spec_parse_lines(lines.skip(1))
    }
}

/// What parsing a whole output stream yields.
pub open spec fn spec_parse(s: Seq<char>) -> Seq<(Seq<char>, Seq<char>)> {
    spec_parse_lines(spec_split_lines(s))
}

/// The `(name, message)` pairs a vector of failures carries.
pub open spec fn failure_pairs(fs: Seq<Failure>) -> Seq<(Seq<char>, Seq<char>)> {
    fs.map_values(|f: Failure| (f.name@, f.message@))
}

proof fn lemma_block_len_le(lines: Seq<Seq<char>>)
    ensures
        block_len(lines) <= lines.len(),
    decreases lines.len(),
{
    if lines.len() == 0 || is_blank_line(lines[0]) {
    } else {
        lemma_block_len_le(lines.skip(1));
    }
}

/// The block length is exactly the index of the first blank line, when the
/// first `k` lines are non-blank and line `k` (if present) is blank.
proof fn lemma_block_len_exact(lines: Seq<Seq<char>>, k: int)
    requires
        0 <= k <= lines.len(),
        forall|i: int| 0 <= i < k ==> !is_blank_line(#[trigger] lines[i]),
        k < lines.len() ==> is_blank_line(lines[k]),
    ensures
        block_len(lines) == k,
    decreases lines.len(),
{
    if lines.len() == 0 {
    } else if k == 0 {
    } else {
        assert(!is_blank_line(lines[0]));
        assert(forall|i: int|
            0 <= i < k - 1 ==> !is_blank_line(#[trigger] lines.skip(1)[i]) && lines.skip(1)[i]
                == lines[i + 1]);
        lemma_block_len_exact(lines.skip(1), k - 1);
    }
}

/// Appending one more line to a joined block appends a newline and the line
/// (or is just the line, for the first one).
proof fn lemma_join_push(msgs: Seq<Seq<char>>, x: Seq<char>)
    ensures
        msgs.len() == 0 ==> join_lines(msgs.push(x)) == x,
        msgs.len() > 0 ==> join_lines(msgs.push(x)) == join_lines(msgs) + seq!['\n'] + x,
    decreases msgs.len(),
{
    let p = msgs.push(x);
    if msgs.len() == 0 {
        assert(p.len() == 1);
        assert(join_lines(p) == p[0]);
        assert(p[0] == x);
    } else {
        lemma_join_push(msgs.skip(1), x);
        assert(p.skip(1) =~= msgs.skip(1).push(x));
        assert(p[0] == msgs[0]);
        if msgs.len() == 1 {
            assert(msgs.skip(1).len() == 0);
            assert(join_lines(p) == p[0] + seq!['\n'] + join_lines(p.skip(1)));
            assert(join_lines(p.skip(1)) == x);
            assert(join_lines(msgs) == msgs[0]);
        } else {
            assert(join_lines(p) == p[0] + seq!['\n'] + join_lines(p.skip(1)));
            assert(join_lines(p.skip(1)) == join_lines(msgs.skip(1)) + seq!['\n'] + x);
            assert(join_lines(msgs) == msgs[0] + seq!['\n'] + join_lines(msgs.skip(1)));
            assert(msgs[0] + seq!['\n'] + (join_lines(msgs.skip(1)) + seq!['\n'] + x) =~= (msgs[0]
                + seq!['\n'] + join_lines(msgs.skip(1))) + seq!['\n'] + x);
        }
    }
}

/// Law: a stream none of whose lines is a delimiter yields no failures at
/// all. Malformed or unrelated output is skipped, never an error.
pub proof fn lemma_parser_leniency(lines: Seq<Seq<char>>)
    requires
        forall|i: int| 0 <= i < lines.len() ==> !is_delim_line(#[trigger] lines[i]),
    ensures
        spec_parse_lines(lines) == Seq::<(Seq<char>, Seq<char>)>::empty(),
    decreases lines.len(),
{
    if lines.len() > 0 {
        assert(forall|i: int|
            0 <= i < lines.skip(1).len() ==> !is_delim_line(#[trigger] lines.skip(1)[i])
                && lines.skip(1)[i] == lines[i + 1]);
        lemma_parser_leniency(lines.skip(1));
    }
}

/// The delimiter line that opens a failure block for this test name.
pub open spec fn delim_line_of(name: Seq<char>) -> Seq<char> {
    delim_open() + name + delim_close()
}

/// One well-formed failure block, rendered as lines: the delimiter line, the
/// message lines, and the blank line that closes the block.
pub open spec fn render_block(b: (Seq<char>, Seq<Seq<char>>)) -> Seq<Seq<char>> {
    seq![delim_line_of(b.0)] + b.1 + seq![Seq::<char>::empty()]
}

/// A sequence of failure blocks rendered as one stream of lines.
pub open spec fn render_blocks(bs: Seq<(Seq<char>, Seq<Seq<char>>)>) -> Seq<Seq<char>>
    decreases bs.len(),
{
    if bs.len() == 0 {
        Seq::empty()
    } else {
        render_block(bs[0]) + render_blocks(bs.skip(1))
    }
}

/// A block is well formed when none of its message lines is blank (a blank
/// line would close the block early).
pub open spec fn wf_blocks(bs: Seq<(Seq<char>, Seq<Seq<char>>)>) -> bool {
    forall|i: int, j: int|
        0 <= i < bs.len() && 0 <= j < bs[i].1.len() ==> !is_blank_line(
            #[trigger] (#[trigger] bs[i]).1[j],
        )
}

proof fn lemma_delim_line_of(name: Seq<char>)
    ensures
        is_delim_line(delim_line_of(name)),
        delim_name(delim_line_of(name)) == name,
{
    let l = delim_line_of(name);
    assert(l.len() == name.len() + 10);
    assert(l.take(5) =~= delim_open());
    assert(l.skip(l.len() - 5) =~= delim_close());
    assert(l.subrange(5, l.len() - 5) =~= name);
}

/// Law: parsing a well-formed rendering of any N failure blocks yields
/// exactly those N (name, message) pairs, in input order, each message being
/// the block's body joined back with newlines.
pub proof fn lemma_parser_round_trip(bs: Seq<(Seq<char>, Seq<Seq<char>>)>)
    requires
        wf_blocks(bs),
    ensures
        spec_parse_lines(render_blocks(bs)) == bs.map_values(
            |b: (Seq<char>, Seq<Seq<char>>)| (b.0, join_lines(b.1)),
        ),
    decreases bs.len(),
{
    let f = |b: (Seq<char>, Seq<Seq<char>>)| (b.0, join_lines(b.1));
    if bs.len() == 0 {
        assert(bs.map_values(f) =~= Seq::<(Seq<char>, Seq<char>)>::empty());
    } else {
        let b0 = bs[0];
        let all = render_blocks(bs);
        let head = delim_line_of(b0.0);
        lemma_delim_line_of(b0.0);
        assert(all[0] == head);
        let rest = all.skip(1);
        assert(rest =~= b0.1 + seq![Seq::<char>::empty()] + render_blocks(bs.skip(1)));
        let k = b0.1.len() as int;
        assert(forall|t: int| 0 <= t < k ==> rest[t] == b0.1[t] && !is_blank_line(#[trigger] rest[t]));
        assert(is_blank_line(rest[k]));
        lemma_block_len_exact(rest, k);
        assert(rest.take(k) =~= b0.1);
        assert(rest.skip(k + 1) =~= render_blocks(bs.skip(1)));
        assert(forall|i: int, j: int|
            0 <= i < bs.skip(1).len() && 0 <= j < bs.skip(1)[i].1.len() ==> bs.skip(1)[i]
                == bs[i + 1] && !is_blank_line(#[trigger] (#[trigger] bs.skip(1)[i]).1[j]));
        lemma_parser_round_trip(bs.skip(1));
        assert(spec_parse_lines(all) == seq![(b0.0, join_lines(b0.1))] + spec_parse_lines(
            render_blocks(bs.skip(1)),
        ));
        assert(bs.map_values(f) =~= seq![f(bs[0])] + bs.skip(1).map_values(f));
    }
}

/// A sequence of lines written back out as one stream, each line followed by
/// a newline.
pub open spec fn render_stream(lines: Seq<Seq<char>>) -> Seq<char>
    decreases lines.len(),
{
    if lines.len() == 0 {
        Seq::empty()
    } else {
        lines[0] + seq!['\n'] + render_stream(lines.skip(1))
    }
}

proof fn lemma_split_consume(line: Seq<char>, rest: Seq<char>, cur: Seq<char>, acc: Seq<Seq<char>>)
    requires
        forall|i: int| 0 <= i < line.len() ==> line[i] != '\n',
    ensures
        split_rec(line + seq!['\n'] + rest, cur, acc) == split_rec(
            rest,
            Seq::empty(),
            acc.push(strip_cr(cur + line)),
        ),
    decreases line.len(),
{
    let s = line + seq!['\n'] + rest;
    if line.len() == 0 {
        assert(s[0] == '\n');
        assert(s.skip(1) =~= rest);
        assert(cur + line =~= cur);
    } else {
        assert(s[0] == line[0]);
        assert(s[0] != '\n');
        assert(s.skip(1) =~= line.skip(1) + seq!['\n'] + rest);
        lemma_split_consume(line.skip(1), rest, cur.push(line[0]), acc);
        assert(cur.push(line[0]) + line.skip(1) =~= cur + line);
    }
}

proof fn lemma_split_render(lines: Seq<Seq<char>>, acc: Seq<Seq<char>>)
    requires
        forall|i: int, j: int|
            0 <= i < lines.len() && 0 <= j < lines[i].len() ==> #[trigger] lines[i][j] != '\n',
        forall|i: int| 0 <= i < lines.len() ==> strip_cr(#[trigger] lines[i]) == lines[i],
    ensures
        split_rec(render_stream(lines), Seq::empty(), acc) == acc + lines,
    decreases lines.len(),
{
    if lines.len() == 0 {
        assert(acc + lines =~= acc);
    } else {
        lemma_split_consume(lines[0], render_stream(lines.skip(1)), Seq::empty(), acc);
        assert(Seq::<char>::empty() + lines[0] =~= lines[0]);
        assert(forall|i: int, j: int|
            0 <= i < lines.skip(1).len() && 0 <= j < lines.skip(1)[i].len()
                ==> #[trigger] lines.skip(1)[i][j] != '\n' && lines.skip(1)[i] == lines[i + 1]);
        assert(forall|i: int|
            0 <= i < lines.skip(1).len() ==> strip_cr(#[trigger] lines.skip(1)[i]) == lines.skip(
                1,
            )[i]);
        lemma_split_render(lines.skip(1), acc.push(lines[0]));
        assert(acc.push(lines[0]) + lines.skip(1) =~= acc + lines);
    }
}

/// Whether every line of these blocks is free of embedded newlines and
/// trailing carriage returns, so that the blocks survive being written out
/// as one stream and read back line by line.
pub open spec fn stream_safe_blocks(bs: Seq<(Seq<char>, Seq<Seq<char>>)>) -> bool {
    &&& forall|i: int, j: int|
        0 <= i < bs.len() && 0 <= j < bs[i].0.len() ==> (#[trigger] (#[trigger] bs[i]).0[j])
            != '\n'
    &&& forall|i: int, j: int, t: int|
        0 <= i < bs.len() && 0 <= j < bs[i].1.len() && 0 <= t < bs[i].1[j].len() ==> (#[trigger] (
        #[trigger] (#[trigger] bs[i]).1[j])[t]) != '\n'
    &&& forall|i: int, j: int|
        0 <= i < bs.len() && 0 <= j < bs[i].1.len() ==> strip_cr(
            #[trigger] (#[trigger] bs[i]).1[j],
        ) == bs[i].1[j]
}

proof fn lemma_render_blocks_lines_safe(bs: Seq<(Seq<char>, Seq<Seq<char>>)>)
    requires
        stream_safe_blocks(bs),
    ensures
        forall|i: int, j: int|
            0 <= i < render_blocks(bs).len() && 0 <= j < render_blocks(bs)[i].len()
                ==> #[trigger] render_blocks(bs)[i][j] != '\n',
        forall|i: int|
            0 <= i < render_blocks(bs).len() ==> strip_cr(#[trigger] render_blocks(bs)[i])
                == render_blocks(bs)[i],
    decreases bs.len(),
{
    if bs.len() > 0 {
        let all = render_blocks(bs);
        let b0 = bs[0];
        assert(forall|i: int, j: int|
            0 <= i < bs.skip(1).len() && 0 <= j < bs.skip(1)[i].0.len() ==> bs.skip(1)[i] == bs[i
                + 1] && (#[trigger] (#[trigger] bs.skip(1)[i]).0[j]) != '\n');
        assert(forall|i: int, j: int, t: int|
            0 <= i < bs.skip(1).len() && 0 <= j < bs.skip(1)[i].1.len() && 0 <= t < bs.skip(
                1,
            )[i].1[j].len() ==> bs.skip(1)[i] == bs[i + 1] && (#[trigger] (#[trigger] (
            #[trigger] bs.skip(1)[i]).1[j])[t]) != '\n');
        assert(forall|i: int, j: int|
            0 <= i < bs.skip(1).len() && 0 <= j < bs.skip(1)[i].1.len() ==> bs.skip(1)[i] == bs[i
                + 1] && strip_cr(#[trigger] (#[trigger] bs.skip(1)[i]).1[j]) == bs.skip(
                1,
            )[i].1[j]);
        lemma_render_blocks_lines_safe(bs.skip(1));
        let head = delim_line_of(b0.0);
        assert(forall|j: int| 0 <= j < head.len() ==> head[j] != '\n') by {
            assert(forall|j: int| 0 <= j < 5 ==> head[j] == delim_open()[j]);
            assert(forall|j: int|
                5 <= j < head.len() - 5 ==> head[j] == (#[trigger] b0.0[j - 5]));
            assert(forall|j: int|
                head.len() - 5 <= j < head.len() ==> head[j] == delim_close()[j - (head.len()
                    - 5)]);
        }
        assert(strip_cr(head) == head) by {
            assert(head[head.len() - 1] == delim_close()[4]);
        }
        assert(all =~= seq![head] + b0.1 + seq![Seq::<char>::empty()] + render_blocks(bs.skip(1)));
        assert forall|i: int, j: int|
            0 <= i < all.len() && 0 <= j < all[i].len() implies #[trigger] all[i][j] != '\n' by {
            if i == 0 {
            } else if i <= b0.1.len() {
                assert(all[i] == b0.1[i - 1]);
            } else if i == b0.1.len() + 1 {
            } else {
                assert(all[i] == render_blocks(bs.skip(1))[i - b0.1.len() - 2]);
            }
        }
        assert forall|i: int| 0 <= i < all.len() implies strip_cr(#[trigger] all[i]) == all[i] by {
            if i == 0 {
            } else if i <= b0.1.len() {
                assert(all[i] == b0.1[i - 1]);
            } else if i == b0.1.len() + 1 {
                assert(all[i] =~= Seq::<char>::empty());
            } else {
                assert(all[i] == render_blocks(bs.skip(1))[i - b0.1.len() - 2]);
            }
        }
    }
}

/// Law: any well-formed sequence of N failure blocks, written out as one
/// character stream, parses back to exactly those N (name, message) pairs in
/// input order, each message being the block's body with its trailing
/// newline stripped.
pub proof fn lemma_parser_round_trip_stream(bs: Seq<(Seq<char>, Seq<Seq<char>>)>)
    requires
        wf_blocks(bs),
        stream_safe_blocks(bs),
    ensures
        spec_parse(render_stream(render_blocks(bs))) == bs.map_values(
            |b: (Seq<char>, Seq<Seq<char>>)| (b.0, join_lines(b.1)),
        ),
{
    lemma_render_blocks_lines_safe(bs);
    lemma_split_render(render_blocks(bs), Seq::empty());
    assert(Seq::<Seq<char>>::empty() + render_blocks(bs) =~= render_blocks(bs));
    lemma_parser_round_trip(bs);
}

/// Whether every character of this line is whitespace.
pub fn line_is_blank(l: &Vec<char>) -> (r: bool)
    ensures
        r == is_blank_line(l@),
{
    let mut i: usize = 0;
    while i < l.len()
        invariant
            i <= l@.len(),
            forall|k: int| 0 <= k < i ==> is_space_char(#[trigger] l@[k]),
        decreases l@.len() - i,
    {
        let c = l[i];
        if !(c == ' ' || c == '\t' || c == '\r' || c == '\n') {
            assert(!is_space_char(l@[i as int]));
            return false;
        }
        i = i + 1;
    }
    true
}

/// Whether this line has the exact delimiter form `---- <name> ----`.
pub fn line_is_delim(l: &Vec<char>) -> (r: bool)
    ensures
        r == is_delim_line(l@),
{
    let n = l.len();
    if n < 10 {
        return false;
    }
    let r = l[0] == '-' && l[1] == '-' && l[2] == '-' && l[3] == '-' && l[4] == ' ' && l[n - 5]
        == ' ' && l[n - 4] == '-' && l[n - 3] == '-' && l[n - 2] == '-' && l[n - 1] == '-';
    proof {
        if r {
            assert(l@.take(5) =~= delim_open());
            assert(l@.skip(n - 5) =~= delim_close());
        } else {
            if l@.take(5) == delim_open() && l@.skip(n - 5) == delim_close() {
                assert(l@[0] == l@.take(5)[0]);
                assert(l@[1] == l@.take(5)[1]);
                assert(l@[2] == l@.take(5)[2]);
                assert(l@[3] == l@.take(5)[3]);
                assert(l@[4] == l@.take(5)[4]);
                assert(l@[n - 5] == l@.skip(n - 5)[0]);
                assert(l@[n - 4] == l@.skip(n - 5)[1]);
                assert(l@[n - 3] == l@.skip(n - 5)[2]);
                assert(l@[n - 2] == l@.skip(n - 5)[3]);
                assert(l@[n - 1] == l@.skip(n - 5)[4]);
                assert(false);
            }
        }
    }
    r
}

/// The view of a vector of line vectors, as a sequence of character
/// sequences.
pub open spec fn lines_view(v: Seq<Vec<char>>) -> Seq<Seq<char>> {
    v.map_values(|l: Vec<char>| l@)
}

fn strip_cr_vec(cur: &mut Vec<char>)
    ensures
        final(cur)@ == strip_cr(old(cur)@),
{
    let n = cur.len();
    if n > 0 {
        if cur[n - 1] == '\r' {
            cur.pop();
        }
    }
}

/// Splits a stream into its lines: one line per `\n`, each with a trailing
/// `\r` removed; a last line without a terminator still counts.
pub fn split_lines(s: &str) -> (lines: Vec<Vec<char>>)
    ensures
        lines_view(lines@) == spec_split_lines(s@),
{
    let chars = str_chars(s);
    let mut lines: Vec<Vec<char>> = Vec::new();
    let mut cur: Vec<char> = Vec::new();
    let mut i: usize = 0;
    proof {
        assert(chars@.skip(0) =~= chars@);
        assert(lines_view(lines@) =~= Seq::<Seq<char>>::empty());
    }
    while i < chars.len()
        invariant
            i <= chars@.len(),
            chars@ == s@,
            split_rec(chars@.skip(i as int), cur@, lines_view(lines@)) == spec_split_lines(s@),
        decreases chars@.len() - i,
    {
        let ghost rem = chars@.skip(i as int);
        proof {
            assert(rem.len() > 0);
            assert(rem[0] == chars@[i as int]);
            assert(rem.skip(1) =~= chars@.skip(i as int + 1));
        }
        let c = chars[i];
        if c == '\n' {
            strip_cr_vec(&mut cur);
            let ghost old_lines = lines@;
            lines.push(cur);
            proof {
                assert(lines_view(lines@) =~= lines_view(old_lines).push(lines@[lines@.len() - 1]@));
            }
            cur = Vec::new();
        } else {
            cur.push(c);
        }
        i = i + 1;
    }
    proof {
        assert(chars@.skip(i as int) =~= Seq::<char>::empty());
    }
    if cur.len() > 0 {
        strip_cr_vec(&mut cur);
        let ghost old_lines = lines@;
        lines.push(cur);
        proof {
            assert(lines_view(lines@) =~= lines_view(old_lines).push(lines@[lines@.len() - 1]@));
            // strip_cr of an already-stripped non-empty line is itself; but the
            // final `split_rec` step strips the raw `cur`, so relate the two.
        }
    }
    lines
}

/// Appends every character of `src` to `dst`.
fn append_chars(dst: &mut Vec<char>, src: &Vec<char>)
    ensures
        final(dst)@ == old(dst)@ + src@,
{
    let mut i: usize = 0;
    while i < src.len()
        invariant
            i <= src@.len(),
            dst@ == old(dst)@ + src@.take(i as int),
        decreases src@.len() - i,
    {
        dst.push(src[i]);
        proof {
            assert(old(dst)@ + src@.take(i as int + 1) =~= (old(dst)@ + src@.take(i as int)).push(
                src@[i as int],
            ));
        }
        i = i + 1;
    }
    proof {
        assert(src@.take(src@.len() as int) =~= src@);
    }
}

/// The mathematical state of the incremental parser: the pairs already
/// completed, and the open block, if any, as its name and the message lines
/// collected so far.
pub ghost struct ParserModel {
    pub done: Seq<(Seq<char>, Seq<char>)>,
    pub open: Option<(Seq<char>, Seq<Seq<char>>)>,
}

/// The state an incremental parser starts from: nothing completed, no open
/// block.
pub open spec fn empty_parser_model() -> ParserModel {
    ParserModel { done: Seq::empty(), open: None }
}

/// What one more line does to the parser's state. Outside a block only a
/// delimiter line matters and opens one; inside a block a blank line closes
/// it and any other line joins the message.
pub open spec fn spec_feed(st: ParserModel, line: Seq<char>) -> ParserModel {
    match st.open {
        None => if is_delim_line(line) {
            ParserModel { done: st.done, open: Some((delim_name(line), Seq::empty())) }
        } else {
            st
        },
        Some((n, ls)) => if is_blank_line(line) {
            ParserModel { done: st.done.push((n, join_lines(ls))), open: None }
        } else {
            ParserModel { done: st.done, open: Some((n, ls.push(line))) }
        },
    }
}

/// The state after feeding a whole sequence of lines, in order.
pub open spec fn spec_feed_all(st: ParserModel, lines: Seq<Seq<char>>) -> ParserModel
    decreases lines.len(),
{
    if lines.len() == 0 {
        st
    } else {
        spec_feed_all(spec_feed(st, lines[0]), lines.skip(1))
    }
}

/// What the parser has produced once the stream ends: a block still open at
/// the end of input closes and counts.
pub open spec fn spec_finish(st: ParserModel) -> Seq<(Seq<char>, Seq<char>)> {
    match st.open {
        Some((n, ls)) => st.done.push((n, join_lines(ls))),
        None => st.done,
    }
}

/// What the rest of the input yields when a block is already open with this
/// name and these collected lines.
spec fn parse_open(n: Seq<char>, ls: Seq<Seq<char>>, lines: Seq<Seq<char>>) -> Seq<
    (Seq<char>, Seq<char>),
>
    decreases lines.len(),
{
    if lines.len() == 0 {
        seq![(n, join_lines(ls))]
    } else if is_blank_line(lines[0]) {
        seq![(n, join_lines(ls))] + spec_parse_lines(lines.skip(1))
    } else {
        parse_open(n, ls.push(lines[0]), lines.skip(1))
    }
}

proof fn lemma_parse_open(n: Seq<char>, ls: Seq<Seq<char>>, lines: Seq<Seq<char>>)
    ensures
        parse_open(n, ls, lines) == seq![(n, join_lines(ls + lines.take(block_len(lines) as int)))]
            + (if block_len(lines) < lines.len() {
            spec_parse_lines(lines.skip(block_len(lines) as int + 1))
        } else {
            Seq::<(Seq<char>, Seq<char>)>::empty()
        }),
    decreases lines.len(),
{
    if lines.len() == 0 {
        assert(ls + lines.take(0) =~= ls);
        assert(parse_open(n, ls, lines) =~= seq![(n, join_lines(ls))]);
    } else if is_blank_line(lines[0]) {
        assert(block_len(lines) == 0);
        assert(ls + lines.take(0) =~= ls);
    } else {
        lemma_parse_open(n, ls.push(lines[0]), lines.skip(1));
        let bl1 = block_len(lines.skip(1));
        assert(block_len(lines) == 1 + bl1);
        lemma_block_len_le(lines.skip(1));
        assert(ls.push(lines[0]) + lines.skip(1).take(bl1 as int) =~= ls + lines.take(1 + bl1 as int));
        if bl1 < lines.skip(1).len() {
            assert(lines.skip(1).skip(bl1 as int + 1) =~= lines.skip(block_len(lines) as int + 1));
        }
    }
}

proof fn lemma_feed_all_closed(done: Seq<(Seq<char>, Seq<char>)>, lines: Seq<Seq<char>>)
    ensures
        spec_finish(spec_feed_all(ParserModel { done, open: None }, lines)) == done
            + spec_parse_lines(lines),
    decreases lines.len(), 1int,
{
    if lines.len() == 0 {
        assert(done + spec_parse_lines(lines) =~= done);
    } else if is_delim_line(lines[0]) {
        lemma_feed_all_open(done, delim_name(lines[0]), Seq::empty(), lines.skip(1));
        lemma_parse_open(delim_name(lines[0]), Seq::empty(), lines.skip(1));
        let rest = lines.skip(1);
        let k = block_len(rest) as int;
        assert(Seq::<Seq<char>>::empty() + rest.take(k) =~= rest.take(k));
        lemma_block_len_le(rest);
        if k < rest.len() {
            assert(done + (seq![(delim_name(lines[0]), join_lines(rest.take(k)))]
                + spec_parse_lines(rest.skip(k + 1))) =~= done + spec_parse_lines(lines));
        } else {
            assert(rest.skip(rest.len() as int) =~= Seq::<Seq<char>>::empty());
            assert(spec_parse_lines(lines) == seq![(delim_name(lines[0]), join_lines(rest.take(k)))]
                + spec_parse_lines(rest.skip(rest.len() as int)));
            assert(done + (seq![(delim_name(lines[0]), join_lines(rest.take(k)))]
                + Seq::<(Seq<char>, Seq<char>)>::empty()) =~= done + spec_parse_lines(lines));
        }
    } else {
        lemma_feed_all_closed(done, lines.skip(1));
    }
}

proof fn lemma_feed_all_open(
    done: Seq<(Seq<char>, Seq<char>)>,
    n: Seq<char>,
    ls: Seq<Seq<char>>,
    lines: Seq<Seq<char>>,
)
    ensures
        spec_finish(spec_feed_all(ParserModel { done, open: Some((n, ls)) }, lines)) == done
            + parse_open(n, ls, lines),
    decreases lines.len(), 0int,
{
    if lines.len() == 0 {
        assert(done + parse_open(n, ls, lines) =~= done.push((n, join_lines(ls))));
    } else if is_blank_line(lines[0]) {
        lemma_feed_all_closed(done.push((n, join_lines(ls))), lines.skip(1));
        assert(done.push((n, join_lines(ls))) + spec_parse_lines(lines.skip(1)) =~= done + (seq![
            (n, join_lines(ls)),
        ] + spec_parse_lines(lines.skip(1))));
    } else {
        lemma_feed_all_open(done, n, ls.push(lines[0]), lines.skip(1));
    }
}

/// Law: feeding a stream to the incremental parser line by line and closing
/// it yields exactly what parsing the whole stream at once yields.
pub proof fn lemma_incremental_batch_agreement(lines: Seq<Seq<char>>)
    ensures
        spec_finish(spec_feed_all(empty_parser_model(), lines)) == spec_parse_lines(lines),
{
    lemma_feed_all_closed(Seq::empty(), lines);
    assert(Seq::<(Seq<char>, Seq<char>)>::empty() + spec_parse_lines(lines) =~= spec_parse_lines(
        lines,
    ));
}

/// The block an incremental parser holds open: the test's name, the message
/// as collected so far, and, as ghost state, the raw lines it was collected
/// from.
pub struct OpenBlock {
    name: Vec<char>,
    msg: Vec<char>,
    lines: Ghost<Seq<Seq<char>>>,
}

/// The incremental parser: the same grammar as `parse_test_output`, but fed
/// one line at a time, so it can observe a live process's output as it
/// arrives. Feeding every line of a stream and finishing yields exactly what
/// the one-shot parse does (`lemma_incremental_batch_agreement`).
pub struct Parser {
    finished: Vec<Failure>,
    open: Option<OpenBlock>,
}

impl Parser {
    pub closed spec fn model(self) -> ParserModel {
        ParserModel {
            done: failure_pairs(self.finished@),
            open: match self.open {
                Some(b) => Some((b.name@, b.lines@)),
                None => None,
            },
        }
    }

    /// The message text kept for the open block is always the joined form of
    /// the lines collected so far, and every collected line is non-empty (a
    /// blank line would have closed the block instead).
    pub closed spec fn wf(self) -> bool {
        match self.open {
            Some(b) => b.msg@ == join_lines(b.lines@) && (forall|i: int|
                0 <= i < b.lines@.len() ==> (#[trigger] b.lines@[i]).len() > 0),
            None => true,
        }
    }

    pub fn new() -> (p: Parser)
        ensures
            p.wf(),
            p.model() == empty_parser_model(),
    {
        let p = Parser { finished: Vec::new(), open: None };
        proof {
            assert(failure_pairs(p.finished@) =~= Seq::<(Seq<char>, Seq<char>)>::empty());
        }
        p
    }

    /// Consumes one line of the stream, without its terminator.
    pub fn feed_line(&mut self, line: &str)
        requires
            old(self).wf(),
        ensures
            final(self).wf(),
            final(self).model() == spec_feed(old(self).model(), line@),
    {
        let chars = str_chars(line);
        self.feed_chars(chars);
    }

    /// Consumes one line of the stream, given as its characters.
    pub fn feed_chars(&mut self, chars: Vec<char>)
        requires
            old(self).wf(),
        ensures
            final(self).wf(),
            final(self).model() == spec_feed(old(self).model(), chars@),
    {
        let cur = self.open.take();
        match cur {
            None => {
                if line_is_delim(&chars) {
                    let n = chars.len();
                    let name = subvec_chars(&chars, 5, n - 5);
                    self.open = Some(
                        OpenBlock { name, msg: Vec::new(), lines: Ghost(Seq::empty()) },
                    );
                    proof {
                        assert(join_lines(Seq::<Seq<char>>::empty()) =~= Seq::<char>::empty());
                    }
                }
            },
            Some(mut b) => {
                if line_is_blank(&chars) {
                    let name = chars_to_string(&b.name);
                    let message = chars_to_string(&b.msg);
                    let ghost pre = self.finished@;
                    self.finished.push(Failure { name, message });
                    proof {
                        assert(failure_pairs(self.finished@) =~= failure_pairs(pre).push(
                            (b.name@, join_lines(b.lines@)),
                        ));
                    }
                } else {
                    let ghost pre_lines = b.lines@;
                    proof {
                        assert(chars@.len() > 0) by {
                            if chars@.len() == 0 {
                                assert(is_blank_line(chars@));
                            }
                        }
                        if pre_lines.len() > 0 {
                            assert(join_lines(pre_lines).len() > 0) by {
                                if pre_lines.len() > 1 {
                                    assert(join_lines(pre_lines) == pre_lines[0] + seq!['\n']
                                        + join_lines(pre_lines.skip(1)));
                                }
                            }
                        }
                    }
                    if b.msg.len() > 0 {
                        b.msg.push('\n');
                    }
                    append_chars(&mut b.msg, &chars);
                    proof {
                        b.lines@ = pre_lines.push(chars@);
                        lemma_join_push(pre_lines, chars@);
                        if pre_lines.len() == 0 {
                            assert(join_lines(pre_lines) =~= Seq::<char>::empty());
                            assert(Seq::<char>::empty() + chars@ =~= chars@);
                            assert(b.msg@ == chars@);
                        } else {
                            assert(b.msg@ == join_lines(pre_lines) + seq!['\n'] + chars@);
                        }
                        assert(b.msg@ == join_lines(b.lines@));
                        assert forall|i: int| 0 <= i < b.lines@.len() implies (
                        #[trigger] b.lines@[i]).len() > 0 by {
                            if i < pre_lines.len() {
                                assert(b.lines@[i] == pre_lines[i]);
                            } else {
                                assert(b.lines@[i] == chars@);
                            }
                        }
                    }
                    self.open = Some(b);
                }
            },
        }
    }

    /// Ends the stream: a block still open closes and counts, and the
    /// collected failures come out in input order.
    pub fn finish(self) -> (r: Vec<Failure>)
        requires
            self.wf(),
        ensures
            failure_pairs(r@) == spec_finish(self.model()),
    {
        let Parser { mut finished, open } = self;
        match open {
            Some(b) => {
                let name = chars_to_string(&b.name);
                let message = chars_to_string(&b.msg);
                let ghost pre = finished@;
                finished.push(Failure { name, message });
                proof {
                    assert(failure_pairs(finished@) =~= failure_pairs(pre).push(
                        (b.name@, join_lines(b.lines@)),
                    ));
                }
            },
            None => {},
        }
        finished
    }
}

/// Feeding one more line is one more step of the fold.
proof fn lemma_feed_all_snoc(st: ParserModel, a: Seq<Seq<char>>, x: Seq<char>)
    ensures
        spec_feed_all(st, a.push(x)) == spec_feed(spec_feed_all(st, a), x),
    decreases a.len(),
{
    let p = a.push(x);
    assert(spec_feed_all(st, p) == spec_feed_all(spec_feed(st, p[0]), p.skip(1)));
    if a.len() == 0 {
        assert(p.skip(1) =~= Seq::<Seq<char>>::empty());
        assert(p[0] == x);
        assert(spec_feed_all(spec_feed(st, x), Seq::<Seq<char>>::empty()) == spec_feed(st, x));
        assert(spec_feed_all(st, a) == st);
    } else {
        assert(p[0] == a[0]);
        assert(p.skip(1) =~= a.skip(1).push(x));
        lemma_feed_all_snoc(spec_feed(st, a[0]), a.skip(1), x);
        assert(spec_feed_all(st, a) == spec_feed_all(spec_feed(st, a[0]), a.skip(1)));
    }
}

/// Parses a test harness's captured output into the list of individual test
/// failures it reports, in the order they appear. Malformed input is never an
/// error: lines that are not delimiters are skipped.
pub fn parse_test_output(output: &str) -> (r: Vec<Failure>)
    ensures
        failure_pairs(r@) == spec_parse(output@),
        r@.len() == spec_parse(output@).len(),
        forall|k: int|
            0 <= k < r@.len() ==> (#[trigger] r@[k]).name@ == spec_parse(output@)[k].0
                && r@[k].message@ == spec_parse(output@)[k].1,
{
    let mut lines = split_lines(output);
    let ghost all = lines_view(lines@);
    let mut p = Parser::new();
    let ghost mut i: int = 0;
    proof {
        assert(all.take(0) =~= Seq::<Seq<char>>::empty());
        assert(lines_view(lines@) =~= all.skip(0));
    }
    while lines.len() > 0
        invariant
            0 <= i <= all.len(),
            lines_view(lines@) == all.skip(i),
            p.wf(),
            p.model() == spec_feed_all(empty_parser_model(), all.take(i)),
        decreases lines@.len(),
    {
        let ghost pre = lines@;
        let line = lines.remove(0);
        proof {
            assert(pre.len() > 0);
            assert(lines_view(pre).len() == pre.len());
            assert(all.skip(i).len() == all.len() - i);
            assert(i < all.len());
            assert(lines_view(pre)[0] == pre[0]@);
            assert(all.skip(i)[0] == all[i + 0]);
            assert(line@ == all[i]);
            assert(lines_view(lines@) =~= lines_view(pre).skip(1));
            assert(lines_view(pre).skip(1) =~= all.skip(i + 1));
            assert(lines_view(lines@) == all.skip(i + 1));
        }
        p.feed_chars(line);
        proof {
            lemma_feed_all_snoc(empty_parser_model(), all.take(i), all[i]);
            assert(all.take(i).push(all[i]) =~= all.take(i + 1));
            i = i + 1;
        }
    }
    proof {
        assert(all.skip(i).len() == lines_view(lines@).len());
        assert(i == all.len());
        assert(all.take(i) =~= all);
        lemma_incremental_batch_agreement(all);
    }
    let out = p.finish();
    proof {
        assert(failure_pairs(out@) == spec_parse(output@));
        assert(forall|t: int|
            0 <= t < out@.len() ==> failure_pairs(out@)[t] == ((#[trigger] out@[t]).name@,
            out@[t].message@));
    }
    out
}

} // verus!
