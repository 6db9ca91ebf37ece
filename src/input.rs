//! The maze file: code page 866 text whose maze rows start with a frame,
//! which is cut off both ends of each row.
use vstd::prelude::*;

verus! {

/// The text that decoding `b` as code page 866 gives.
pub uninterp spec fn ibm866_text(b: Seq<u8>) -> Seq<char>;

/// Relies on `encoding_rs::IBM866.decode`: the characters of the text decoded
/// from `bytes`, which depend on the bytes alone.
#[verifier::external_body]
fn decode_ibm866(bytes: &Vec<u8>) -> (r: Vec<char>)
    ensures
        r@ == ibm866_text(bytes@),
{
    let (text, _, _) = encoding_rs::IBM866.decode(bytes.as_slice());
    text.chars().collect()
}

/// The frame in front of each maze row.
pub open spec fn frame_left() -> Seq<char> {
    seq![' ', '│', ' ', '║', ' ', ' ']
}

/// The frame behind each maze row.
pub open spec fn frame_right() -> Seq<char> {
    seq![' ', ' ', '║', ' ', '│', '░']
}

/// `s` with every occurrence of `p` taken out, scanning from the left.
pub open spec fn remove_all(s: Seq<char>, p: Seq<char>) -> Seq<char>
    decreases s.len(),
{
    if s.len() == 0 {
        s
    } else if p.len() > 0 && p.len() <= s.len() && s.take(p.len() as int) == p {
        remove_all(s.skip(p.len() as int), p)
    } else {
        seq![s[0]] + remove_all(s.skip(1), p)
    }
}

/// A line without the carriage return that may end it.
pub open spec fn strip_cr(line: Seq<char>) -> Seq<char> {
    if line.len() > 0 && line.last() == '\r' {
        line.drop_last()
    } else {
        line
    }
}

/// The finished lines of `s`, and the line still open at its end.
pub open spec fn scan(s: Seq<char>) -> (Seq<Seq<char>>, Seq<char>)
    decreases s.len(),
{
    if s.len() == 0 {
        (seq![], seq![])
    } else {
        let (done, open) = scan(s.drop_last());
        if s.last() == '\n' {
            (done.push(strip_cr(open)), seq![])
        } else {
            (done, open.push(s.last()))
        }
    }
}

/// The lines of `s`, split at each line feed, without a carriage return at
/// their end; a last line with no line feed after it counts if not empty.
pub open spec fn lines(s: Seq<char>) -> Seq<Seq<char>> {
    let (done, open) = scan(s);
    if open.len() > 0 {
        done.push(strip_cr(open))
    } else {
        done
    }
}

/// A maze row starts with a space and a vertical line.
pub open spec fn is_maze_line(line: Seq<char>) -> bool {
    line.len() >= 2 && line[0] == ' ' && line[1] == '│'
}

/// A maze row with its frame cut off.
pub open spec fn unframe(line: Seq<char>) -> Seq<char> {
    remove_all(remove_all(line, frame_left()), frame_right())
}

/// The maze rows among `ls`, each without its frame.
pub open spec fn maze_rows_of(ls: Seq<Seq<char>>) -> Seq<Seq<char>>
    decreases ls.len(),
{
    if ls.len() == 0 {
        seq![]
    } else if is_maze_line(ls.last()) {
        maze_rows_of(ls.drop_last()).push(unframe(ls.last()))
    } else {
        maze_rows_of(ls.drop_last())
    }
}

/// Whether `p` occurs in `s` at position `i`.
fn occurs_at(s: &Vec<char>, i: usize, p: &Vec<char>) -> (r: bool)
    requires
        i <= s.len(),
    ensures
        r == (p@.len() <= s@.len() - i && s@.subrange(i as int, i + p@.len()) == p@),
{
    if p.len() > s.len() - i {
        return false;
    }
    let mut k: usize = 0;
    while k < p.len()
        invariant
            i <= s@.len(),
            s@.len() == s.len(),
            p@.len() <= s@.len() - i,
            k <= p.len(),
            forall|t: int| 0 <= t < k ==> s@[i + t] == p@[t],
        decreases p.len() - k,
    {
        if s[i + k] != p[k] {
            assert(s@.subrange(i as int, i + p@.len())[k as int] != p@[k as int]);
            return false;
        }
        k += 1;
    }
    assert(s@.subrange(i as int, i + p@.len()) =~= p@);
    true
}

/// `s` with every occurrence of `p` taken out, scanning from the left.
pub fn remove_pattern(s: &Vec<char>, p: &Vec<char>) -> (r: Vec<char>)
    requires
        p@.len() > 0,
    ensures
        r@ == remove_all(s@, p@),
{
    let mut out: Vec<char> = Vec::new();
    let mut i: usize = 0;
    assert(s@.skip(0) =~= s@);
    assert(out@ + remove_all(s@, p@) =~= remove_all(s@, p@));
    while i < s.len()
        invariant
            i <= s.len(),
            p@.len() > 0,
            out@ + remove_all(s@.skip(i as int), p@) == remove_all(s@, p@),
        decreases s.len() - i,
    {
        let ghost rest = s@.skip(i as int);
        if occurs_at(s, i, p) {
            assert(rest.take(p@.len() as int) =~= s@.subrange(i as int, i + p@.len()));
            assert(rest.skip(p@.len() as int) =~= s@.skip(i + p@.len()));
            i = i + p.len();
        } else {
            proof {
                if p@.len() <= rest.len() {
                    assert(rest.take(p@.len() as int) =~= s@.subrange(i as int, i + p@.len()));
                }
            }
            assert(rest.skip(1) =~= s@.skip(i + 1));
            out.push(s[i]);
            assert(out@ + remove_all(s@.skip(i + 1), p@) =~= (out@.drop_last() + (seq![s@[i as int]]
                + remove_all(rest.skip(1), p@))));
            i = i + 1;
        }
    }
    assert(s@.skip(i as int) =~= seq![]);
    assert(out@ + seq![] =~= out@);
    out
}

/// Splits `text` into its lines.
pub fn split_lines(text: &Vec<char>) -> (r: Vec<Vec<char>>)
    ensures
        r@.map_values(|l: Vec<char>| l@) == lines(text@),
{
    let mut done: Vec<Vec<char>> = Vec::new();
    let mut open: Vec<char> = Vec::new();
    let mut i: usize = 0;
    while i < text.len()
        invariant
            i <= text.len(),
            (done@.map_values(|l: Vec<char>| l@), open@) == scan(text@.take(i as int)),
        decreases text.len() - i,
    {
        let c = text[i];
        assert(text@.take(i + 1).drop_last() =~= text@.take(i as int));
        let ghost before = done@.map_values(|l: Vec<char>| l@);
        if c == '\n' {
            let line = strip_line_end(open);
            done.push(line);
            open = Vec::new();
            assert(done@.map_values(|l: Vec<char>| l@) =~= before.push(line@));
        } else {
            open.push(c);
            assert(done@.map_values(|l: Vec<char>| l@) =~= before);
        }
        i += 1;
    }
    assert(text@.take(text.len() as int) =~= text@);
    if open.len() > 0 {
        let ghost before = done@.map_values(|l: Vec<char>| l@);
        let line = strip_line_end(open);
        done.push(line);
        assert(done@.map_values(|l: Vec<char>| l@) =~= before.push(line@));
    }
    done
}

/// A line without the carriage return that may end it.
fn strip_line_end(line: Vec<char>) -> (r: Vec<char>)
    ensures
        r@ == strip_cr(line@),
{
    let mut line = line;
    if line.len() > 0 && line[line.len() - 1] == '\r' {
        line.pop();
    }
    line
}

/// The maze rows of `text`, each without its frame.
pub fn maze_rows(text: &Vec<char>) -> (r: Vec<Vec<char>>)
    ensures
        r@.map_values(|l: Vec<char>| l@) == maze_rows_of(lines(text@)),
{
    let ls = split_lines(text);
    let ghost all = ls@.map_values(|l: Vec<char>| l@);
    let left = vec![' ', '│', ' ', '║', ' ', ' '];
    let right = vec![' ', ' ', '║', ' ', '│', '░'];
    assert(left@ =~= frame_left());
    assert(right@ =~= frame_right());
    let mut rows: Vec<Vec<char>> = Vec::new();
    let mut k: usize = 0;
    while k < ls.len()
        invariant
            k <= ls.len(),
            all == ls@.map_values(|l: Vec<char>| l@),
            left@ == frame_left(),
            right@ == frame_right(),
            rows@.map_values(|l: Vec<char>| l@) == maze_rows_of(all.take(k as int)),
        decreases ls.len() - k,
    {
        let line = &ls[k];
        assert(all.take(k + 1).drop_last() =~= all.take(k as int));
        assert(all.take(k + 1).last() == line@);
        let ghost before = rows@.map_values(|l: Vec<char>| l@);
        if line.len() >= 2 && line[0] == ' ' && line[1] == '│' {
            let inner = remove_pattern(line, &left);
            let row = remove_pattern(&inner, &right);
            rows.push(row);
            assert(rows@.map_values(|l: Vec<char>| l@) =~= before.push(unframe(line@)));
        } else {
            assert(rows@.map_values(|l: Vec<char>| l@) =~= before);
        }
        k += 1;
    }
    assert(all.take(ls.len() as int) =~= all);
    rows
}

/// Decodes `bytes` as code page 866 and returns its maze rows, each without
/// its frame.
pub fn maze_from_bytes(bytes: &Vec<u8>) -> (r: Vec<Vec<char>>)
    ensures
        r@.map_values(|l: Vec<char>| l@) == maze_rows_of(lines(ibm866_text(bytes@))),
{
    let text = decode_ibm866(bytes);
    maze_rows(&text)
}

} // verus!
