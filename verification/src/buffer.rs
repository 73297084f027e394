//! One document: an ordered sequence of lines plus an optional bound file
//! path. Each line is a sequence of characters that normally ends with a
//! `'\n'` marker; editing can strip the marker from a line, but the buffer
//! always keeps at least one line.

use vstd::prelude::*;
use crate::point::Point;

verus! {

/// Mathematical model of a buffer: the lines as character sequences and the
/// bound path, if any.
#[verifier::ext_equal]
pub struct BufView {
    pub lines: Seq<Seq<char>>,
    pub path: Option<Seq<char>>,
}

/// Holds the text data and the file path, if any. The buffer has no knowledge
/// of the editor around it.
pub struct Buffer {
    /// The text, one entry per line, each normally terminated by `'\n'`.
    pub data: Vec<Vec<char>>,
    /// The file path associated with this buffer.
    pub filepath: Option<Vec<char>>,
}

impl View for Buffer {
    type V = BufView;

    open spec fn view(&self) -> BufView {
        BufView {
            lines: self.data.deep_view(),
            path: match self.filepath {
                Some(p) => Some(p.view()),
                None => None,
            },
        }
    }
}

/// The rightmost column the cursor may rest on in `line` when it asks for
/// column `x`: `x` itself while `x` points at a character (the trailing
/// marker included), otherwise the last character before the trailing
/// marker, or 0 for an empty line.
pub open spec fn spec_last_col(line: Seq<char>, x: int) -> int {
    if x < line.len() {
        x
    } else if line.len() >= 2 {
        line.len() - 2
    } else {
        0
    }
}

/// One line as written out: itself if it already carries its `'\n'` marker,
/// otherwise with one appended.
pub open spec fn terminated(line: Seq<char>) -> Seq<char> {
    if line.len() > 0 && line[line.len() - 1] == '\n' {
        line
    } else {
        line.push('\n')
    }
}

/// The byte stream a buffer is saved as: every line followed by exactly one
/// terminator, the last line included.
pub open spec fn serialize_lines(lines: Seq<Seq<char>>) -> Seq<char>
    decreases lines.len(),
{
    if lines.len() == 0 {
        Seq::empty()
    } else {
        terminated(lines[0]) + serialize_lines(lines.drop_first())
    }
}

/// Index of the first `'\n'` in `s`, or `s.len()` if there is none.
pub open spec fn first_nl(s: Seq<char>) -> int
    decreases s.len(),
{
    if s.len() == 0 {
        0
    } else if s[0] == '\n' {
        0
    } else {
        1 + first_nl(s.drop_first())
    }
}

/// `s` without a trailing `'\r'`, if it has one.
pub open spec fn strip_cr(s: Seq<char>) -> Seq<char> {
    if s.len() > 0 && s[s.len() - 1] == '\r' {
        s.drop_last()
    } else {
        s
    }
}

/// The lines of a character stream, split at `'\n'`, each line terminated by
/// `'\n'` in the result. A `'\r'` directly before a `'\n'` is dropped; a
/// final line without a terminator is kept.
pub open spec fn split_stream(s: Seq<char>) -> Seq<Seq<char>>
    decreases s.len(),
{
    if s.len() == 0 {
        Seq::empty()
    } else {
        let k = first_nl(s);
        if k == s.len() {
            seq![s.push('\n')]
        } else {
            proof {
                lemma_first_nl_in_range(s);
            }
            seq![strip_cr(s.subrange(0, k)).push('\n')]
                + split_stream(s.subrange(k + 1, s.len() as int))
        }
    }
}

/// What a buffer holds after loading a character stream: its split lines, or
/// one empty line for an empty stream.
pub open spec fn loaded_lines(s: Seq<char>) -> Seq<Seq<char>> {
    if s.len() == 0 {
        seq![seq!['\n']]
    } else {
        split_stream(s)
    }
}

impl Buffer {
    /// The one structural invariant: at least one line always exists.
    pub open spec fn wf(&self) -> bool {
        self@.lines.len() >= 1
    }

    /// Make a new empty `Buffer`: a single line holding only its marker.
    pub fn new() -> (r: Buffer)
        ensures
            r@.lines =~~= seq![seq!['\n']],
            r@.path is None,
            r.wf(),
    {
        let mut line: Vec<char> = Vec::new();
        line.push('\n');
        let mut data: Vec<Vec<char>> = Vec::new();
        data.push(line);
        let r = Buffer { data, filepath: None };
        proof {
            assert(r@.lines =~~= seq![seq!['\n']]);
        }
        r
    }

    /// Number of lines in the buffer.
    pub fn line_len(&self) -> (r: usize)
        ensures
            r == self@.lines.len(),
    {
        self.data.len()
    }

    /// The line at the given row, if any.
    pub fn line_at(&self, y: usize) -> (r: Option<&Vec<char>>)
        ensures
            match r {
                Some(line) => y < self@.lines.len() && line.deep_view() == self@.lines[y as int],
                None => y >= self@.lines.len(),
            },
    {
        if y < self.data.len() {
            Some(&self.data[y])
        } else {
            None
        }
    }

    /// The rightmost column the cursor may rest on in `location`'s row, given
    /// that it asks for `location.x`. Returns 0 for an empty line.
    pub fn last_non_empty_col(&self, location: Point) -> (r: usize)
        requires
            location.y < self@.lines.len(),
        ensures
            r == spec_last_col(self@.lines[location.y as int], location.x as int),
    {
        let line = &self.data[location.y];
        if location.x < line.len() {
            location.x
        } else if line.len() >= 2 {
            line.len() - 2
        } else {
            0
        }
    }

    /// The character at the given column and row, if one exists.
    pub fn char_at(&self, location: Point) -> (r: Option<char>)
        ensures
            match r {
                Some(c) => location.y < self@.lines.len()
                    && location.x < self@.lines[location.y as int].len()
                    && c == self@.lines[location.y as int][location.x as int],
                None => location.y >= self@.lines.len()
                    || location.x >= self@.lines[location.y as int].len(),
            },
    {
        if location.y < self.data.len() {
            let line = &self.data[location.y];
            if location.x < line.len() {
                Some(line[location.x])
            } else {
                None
            }
        } else {
            None
        }
    }

    /// Insert a character at the given point, pushing the rest of the line to
    /// the right.
    pub fn insert(&mut self, location: Point, c: char)
        requires
            location.y < old(self)@.lines.len(),
            location.x <= old(self)@.lines[location.y as int].len(),
        ensures
            final(self)@.lines =~~= old(self)@.lines.update(
                location.y as int,
                old(self)@.lines[location.y as int].insert(location.x as int, c),
            ),
            final(self)@.path == old(self)@.path,
    {
        let line = &mut self.data[location.y];
        line.insert(location.x, c);
    }

    /// Delete the character at the given point, shifting the rest of the line
    /// to the left, and return it.
    pub fn delete(&mut self, location: Point) -> (r: char)
        requires
            location.y < old(self)@.lines.len(),
            location.x < old(self)@.lines[location.y as int].len(),
        ensures
            r == old(self)@.lines[location.y as int][location.x as int],
            final(self)@.lines =~~= old(self)@.lines.update(
                location.y as int,
                old(self)@.lines[location.y as int].remove(location.x as int),
            ),
            final(self)@.path == old(self)@.path,
    {
        let line = &mut self.data[location.y];
        line.remove(location.x)
    }

    /// Overwrite the character at the given point.
    pub fn replace(&mut self, location: Point, c: char)
        requires
            location.y < old(self)@.lines.len(),
            location.x < old(self)@.lines[location.y as int].len(),
        ensures
            final(self)@.lines =~~= old(self)@.lines.update(
                location.y as int,
                old(self)@.lines[location.y as int].update(location.x as int, c),
            ),
            final(self)@.path == old(self)@.path,
    {
        let line = &mut self.data[location.y];
        let removed = line.remove(location.x);
        line.insert(location.x, c);
        proof {
            assert(final(self)@.lines[location.y as int] =~= old(self)@.lines[
                location.y as int].update(location.x as int, c));
        }
    }

    /// Overwrite the character at the given point, or insert `c` if the point
    /// sits on the line's trailing marker (or past the line's end).
    pub fn upsert(&mut self, location: Point, c: char)
        requires
            location.y < old(self)@.lines.len(),
            location.x <= old(self)@.lines[location.y as int].len(),
        ensures
            final(self)@.lines =~~= old(self)@.lines.update(
                location.y as int,
                upserted(old(self)@.lines[location.y as int], location.x as int, c),
            ),
            final(self)@.path == old(self)@.path,
    {
        match self.char_at(location) {
            Some(existing) => {
                if existing == '\n' {
                    self.insert(location, c);
                } else {
                    self.replace(location, c);
                }
            }
            None => {
                self.insert(location, c);
            }
        }
    }

    /// Insert several characters at the given point. See `insert`.
    pub fn insert_text(&mut self, location: Point, text: &Vec<char>)
        requires
            location.y < old(self)@.lines.len(),
            location.x <= old(self)@.lines[location.y as int].len(),
        ensures
            final(self)@.lines =~~= old(self)@.lines.update(
                location.y as int,
                spliced(old(self)@.lines[location.y as int], location.x as int, text@),
            ),
            final(self)@.path == old(self)@.path,
    {
        let line = &mut self.data[location.y];
        let ghost orig = line@;
        let rest = line.split_off(location.x);
        let mut i: usize = 0;
        while i < text.len()
            invariant
                i <= text@.len(),
                line@ =~= orig.subrange(0, location.x as int) + text@.subrange(
                    0, i as int),
            decreases text@.len() - i,
        {
            line.push(text[i]);
            i = i + 1;
            proof {
                assert(line@ =~= orig.subrange(0, location.x as int) + text@.subrange(
                    0, i as int));
            }
        }
        let mut j: usize = 0;
        while j < rest.len()
            invariant
                j <= rest@.len(),
                rest@ =~= orig.subrange(location.x as int, orig.len() as int),
                line@ =~= orig.subrange(0, location.x as int) + text@ + rest@.subrange(
                    0, j as int),
            decreases rest@.len() - j,
        {
            line.push(rest[j]);
            j = j + 1;
            proof {
                assert(line@ =~= orig.subrange(0, location.x as int) + text@
                    + rest@.subrange(0, j as int));
            }
        }
        proof {
            assert(line@ =~= spliced(orig, location.x as int, text@));
        }
    }

    /// Insert an empty line below the given point, shifting later lines down.
    pub fn new_line(&mut self, location: Point)
        requires
            location.y < old(self)@.lines.len(),
        ensures
            final(self)@.lines =~~= old(self)@.lines.insert(
                location.y + 1,
                seq!['\n'],
            ),
            final(self)@.path == old(self)@.path,
    {
        let n = self.data.len();
        proof {
            assert(location.y < n);
        }
        let mut line: Vec<char> = Vec::new();
        line.push('\n');
        self.data.insert(location.y + 1, line);
    }

    /// Delete the line at the given point, shifting later lines up, and
    /// return it. When the last line goes, one empty line takes its place, so
    /// that the buffer never becomes lineless.
    pub fn delete_line(&mut self, location: Point) -> (r: Vec<char>)
        requires
            location.y < old(self)@.lines.len(),
        ensures
            r.deep_view() == old(self)@.lines[location.y as int],
            final(self)@.lines =~~= if old(self)@.lines.len() == 1 {
                seq![seq!['\n']]
            } else {
                old(self)@.lines.remove(location.y as int)
            },
            final(self)@.path == old(self)@.path,
    {
        let removed = self.data.remove(location.y);
        if self.data.len() == 0 {
            let mut line: Vec<char> = Vec::new();
            line.push('\n');
            self.data.push(line);
        }
        removed
    }

    /// Split the line at the given point in two: the first half keeps the
    /// point's row and gains a marker, the second half becomes a new line
    /// below it.
    pub fn split_line(&mut self, location: Point)
        requires
            location.y < old(self)@.lines.len(),
            location.x <= old(self)@.lines[location.y as int].len(),
        ensures
            final(self)@.lines =~~= old(self)@.lines.update(
                location.y as int,
                old(self)@.lines[location.y as int].subrange(0, location.x as int).push('\n'),
            ).insert(
                location.y + 1,
                old(self)@.lines[location.y as int].subrange(
                    location.x as int,
                    old(self)@.lines[location.y as int].len() as int,
                ),
            ),
            final(self)@.path == old(self)@.path,
    {
        let n = self.data.len();
        proof {
            assert(location.y < n);
        }
        let line = &mut self.data[location.y];
        let rest = line.split_off(location.x);
        line.push('\n');
        self.data.insert(location.y + 1, rest);
    }

    /// Populate the buffer from the character stream of a file, replacing the
    /// previous contents. An empty stream still yields one empty line.
    pub fn load_text(&mut self, text: &Vec<char>)
        ensures
            final(self)@.lines =~~= loaded_lines(text@),
            final(self)@.path == old(self)@.path,
            final(self).wf(),
    {
        let mut lines: Vec<Vec<char>> = Vec::new();
        let mut p: usize = 0;
        proof {
            assert(text@.subrange(0, text@.len() as int) =~= text@);
        }
        while p < text.len()
            invariant
                p <= text@.len(),
                p < text@.len() ==> split_stream(text@) =~~= lines.deep_view()
                    + split_stream(text@.subrange(p as int, text@.len() as int)),
                p == text@.len() && text@.len() > 0 ==> split_stream(text@)
                    =~~= lines.deep_view(),
                text@.len() == 0 ==> lines.deep_view() =~~= Seq::<Seq<char>>::empty(),
            decreases text@.len() - p,
        {
            let ghost rest = text@.subrange(p as int, text@.len() as int);
            let mut k: usize = p;
            while k < text.len() && text[k] != '\n'
                invariant
                    p <= k <= text@.len(),
                    forall|j: int| p <= j < k ==> text@[j] != '\n',
                decreases text@.len() - k,
            {
                k = k + 1;
            }
            proof {
                lemma_first_nl_position(rest, k - p);
            }
            let mut line: Vec<char> = Vec::new();
            let mut i: usize = p;
            while i < k
                invariant
                    p <= i <= k <= text@.len(),
                    line@ =~= text@.subrange(p as int, i as int),
                decreases k - i,
            {
                line.push(text[i]);
                i = i + 1;
                proof {
                    assert(line@ =~= text@.subrange(p as int, i as int));
                }
            }
            proof {
                assert(line@ =~= rest.subrange(0, k - p));
            }
            if k < text.len() {
                // a terminated line: drop a '\r' left by a CRLF ending
                if line.len() > 0 && line[line.len() - 1] == '\r' {
                    line.pop();
                }
                proof {
                    assert(line@ =~= strip_cr(rest.subrange(0, k - p)));
                }
            }
            line.push('\n');
            lines.push(line);
            proof {
                if k < text@.len() {
                    assert(rest.subrange(k - p + 1, rest.len() as int) =~= text@.subrange(
                        k + 1, text@.len() as int));
                } else {
                    assert(rest.subrange(0, k - p) =~= rest);
                }
            }
            p = if k < text.len() { k + 1 } else { k };
        }
        if lines.len() == 0 {
            let mut line: Vec<char> = Vec::new();
            line.push('\n');
            lines.push(line);
            proof {
                assert(lines.deep_view() =~~= seq![seq!['\n']]);
            }
        }
        self.data = lines;
    }

    /// The character stream the buffer is saved as: every line followed by
    /// exactly one terminator, the last line included.
    pub fn save_text(&self) -> (r: Vec<char>)
        ensures
            r@ == serialize_lines(self@.lines),
    {
        let mut out: Vec<char> = Vec::new();
        let mut y: usize = 0;
        proof {
            lemma_serialize_take(self@.lines, 0);
            assert(self@.lines.subrange(0, 0) =~~= Seq::<Seq<char>>::empty());
        }
        while y < self.data.len()
            invariant
                y <= self@.lines.len(),
                self@.lines.len() == self.data@.len(),
                out@ =~= serialize_lines(self@.lines.subrange(0, y as int)),
            decreases self@.lines.len() - y,
        {
            let line = &self.data[y];
            let mut i: usize = 0;
            let ghost before = out@;
            while i < line.len()
                invariant
                    i <= line@.len(),
                    line.deep_view() == self@.lines[y as int],
                    out@ =~= before + line@.subrange(0, i as int),
                decreases line@.len() - i,
            {
                out.push(line[i]);
                i = i + 1;
                proof {
                    assert(out@ =~= before + line@.subrange(0, i as int));
                }
            }
            proof {
                assert(line@.subrange(0, line@.len() as int) =~= line@);
                assert(line@ =~= line.deep_view());
            }
            if line.len() == 0 || line[line.len() - 1] != '\n' {
                out.push('\n');
            }
            proof {
                assert(out@ =~= before + terminated(self@.lines[y as int]));
            }
            y = y + 1;
            proof {
                lemma_serialize_snoc(self@.lines, y as int);
            }
        }
        proof {
            assert(self@.lines.subrange(0, self@.lines.len() as int) =~~= self@.lines);
        }
        out
    }
}

/// `line` with `c` written at column `x`: overwritten when a character other
/// than the trailing marker sits there, inserted otherwise.
pub open spec fn upserted(line: Seq<char>, x: int, c: char) -> Seq<char> {
    if x < line.len() && line[x] != '\n' {
        line.update(x, c)
    } else {
        line.insert(x, c)
    }
}

/// `line` with `text` inserted at column `x`.
pub open spec fn spliced(line: Seq<char>, x: int, text: Seq<char>) -> Seq<char> {
    line.subrange(0, x) + text + line.subrange(x, line.len() as int)
}

/// `first_nl(s)` is exactly the position of the first `'\n'`.
proof fn lemma_first_nl_position(s: Seq<char>, k: int)
    requires
        0 <= k <= s.len(),
        forall|j: int| 0 <= j < k ==> s[j] != '\n',
        k < s.len() ==> s[k] == '\n',
    ensures
        first_nl(s) == k,
    decreases s.len(),
{
    if s.len() != 0 && s[0] != '\n' {
        lemma_first_nl_position(s.drop_first(), k - 1);
    }
}

/// Serializing a prefix of no lines yields no characters.
proof fn lemma_serialize_take(lines: Seq<Seq<char>>, n: int)
    requires
        0 <= n <= lines.len(),
    ensures
        n == 0 ==> serialize_lines(lines.subrange(0, n)) == Seq::<char>::empty(),
{
}

/// Serializing one more line appends that line, terminated.
proof fn lemma_serialize_snoc(lines: Seq<Seq<char>>, n: int)
    requires
        1 <= n <= lines.len(),
    ensures
        serialize_lines(lines.subrange(0, n)) == serialize_lines(
            lines.subrange(0, n - 1),
        ) + terminated(lines[n - 1]),
    decreases n,
{
    let pre = lines.subrange(0, n);
    if n == 1 {
        assert(pre.drop_first() =~~= lines.subrange(0, 0));
        assert(serialize_lines(lines.subrange(0, 0)) == Seq::<char>::empty());
        assert(serialize_lines(pre) =~= terminated(lines[0]) + Seq::<char>::empty());
        assert(serialize_lines(pre) =~= serialize_lines(lines.subrange(0, 0))
            + terminated(lines[0]));
    } else {
        lemma_serialize_snoc(lines.subrange(1, lines.len() as int), n - 1);
        assert(pre.drop_first() =~~= lines.subrange(1, lines.len() as int).subrange(
            0, n - 1));
        assert(lines.subrange(0, n - 1).drop_first() =~~= lines.subrange(
            1, lines.len() as int).subrange(0, n - 2));
        assert(lines.subrange(1, lines.len() as int)[n - 2] == lines[n - 1]);
        assert(serialize_lines(pre) =~= serialize_lines(lines.subrange(0, n - 1))
            + terminated(lines[n - 1]));
    }
}

/// Loading a character stream and saving the result gives the stream back
/// with every line followed by exactly one terminator, the last line
/// included: a stream of `'\n'`-terminated lines round-trips byte for byte,
/// and an unterminated final line gains exactly one `'\n'`.
pub proof fn lemma_load_save_round_trip(text: Seq<char>)
    requires
        forall|i: int| 0 <= i < text.len() ==> text[i] != '\r',
    ensures
        serialize_lines(loaded_lines(text)) == if text.len() == 0 {
            seq!['\n']
        } else if text[text.len() - 1] == '\n' {
            text
        } else {
            text.push('\n')
        },
    decreases text.len(),
{
    if text.len() == 0 {
        assert(loaded_lines(text) == seq![seq!['\n']]);
        assert(serialize_lines(seq![seq!['\n']]).len() == terminated(seq!['\n']).len()
            + serialize_lines(seq![seq!['\n']].drop_first()).len());
        assert(seq![seq!['\n']].drop_first() =~~= Seq::<Seq<char>>::empty());
        assert(serialize_lines(loaded_lines(text)) =~= seq!['\n']);
    } else {
        let k = first_nl(text);
        lemma_first_nl_in_range(text);
        if k == text.len() {
            // one unterminated line
            let line = text.push('\n');
            assert(terminated(line) == line);
            assert(split_stream(text) == seq![line]);
            assert(seq![line].drop_first() =~~= Seq::<Seq<char>>::empty());
            assert(serialize_lines(Seq::<Seq<char>>::empty()) == Seq::<char>::empty());
            assert(serialize_lines(split_stream(text)) =~= text.push('\n'));
            assert(text[text.len() - 1] != '\n');
        } else {
            let head = text.subrange(0, k);
            let rest = text.subrange(k + 1, text.len() as int);
            assert(strip_cr(head) == head);
            let line = head.push('\n');
            assert(terminated(line) == line);
            lemma_load_save_round_trip(rest);
            if rest.len() == 0 {
                assert(split_stream(rest) =~~= Seq::<Seq<char>>::empty());
                assert(split_stream(text) =~~= seq![line]);
                assert(seq![line].drop_first() =~~= Seq::<Seq<char>>::empty());
                assert(serialize_lines(Seq::<Seq<char>>::empty()) == Seq::<char>::empty());
                assert(serialize_lines(split_stream(text)) =~= line);
                assert(k == text.len() - 1 && text[text.len() - 1] == '\n');
                assert(line =~= text);
            } else {
                assert(split_stream(text) == seq![line] + split_stream(rest));
                assert((seq![line] + split_stream(rest)).drop_first() =~~=
                    split_stream(rest));
                assert(serialize_lines(split_stream(text)) =~= line
                    + serialize_lines(split_stream(rest)));
                if rest[rest.len() - 1] == '\n' {
                    assert(text[text.len() - 1] == '\n');
                    assert(serialize_lines(split_stream(text)) =~= line + rest);
                    assert(line + rest =~= text);
                } else {
                    assert(text[text.len() - 1] != '\n');
                    assert(serialize_lines(split_stream(text)) =~= line
                        + rest.push('\n'));
                    assert(line + rest.push('\n') =~= text.push('\n'));
                }
            }
        }
    }
}

/// `first_nl` stays within the sequence and really finds a `'\n'`.
pub proof fn lemma_first_nl_in_range(s: Seq<char>)
    ensures
        0 <= first_nl(s) <= s.len(),
        first_nl(s) < s.len() ==> s[first_nl(s)] == '\n',
        forall|j: int| 0 <= j < first_nl(s) ==> s[j] != '\n',
    decreases s.len(),
{
    if s.len() != 0 && s[0] != '\n' {
        lemma_first_nl_in_range(s.drop_first());
        assert forall|j: int| 0 <= j < first_nl(s) implies s[j] != '\n' by {
            if j > 0 {
                assert(s.drop_first()[j - 1] == s[j]);
            }
        }
    }
}

} // verus!
