//! Character-sequence utilities: searching, trimming, splitting and line
//! handling, each specified over `Seq<char>`.

use vstd::prelude::*;

verus! {

/// The index of the first occurrence of `c` in `s`, if any.
pub open spec fn find_char(s: Seq<char>, c: char) -> Option<int>
    decreases s.len(),
{
    if s.len() == 0 {
        None
    } else if s[0] == c {
        Some(0)
    } else {
        match find_char(s.skip(1), c) {
            Some(i) => Some(i + 1),
            None => None,
        }
    }
}

/// `find_char` returns the least index holding `c`, or `None` when `c` does
/// not occur.
pub proof fn lemma_find_char(s: Seq<char>, c: char)
    ensures
        match find_char(s, c) {
            Some(i) => 0 <= i < s.len() && s[i] == c && (forall|j: int| 0 <= j < i ==> s[j] != c),
            None => forall|j: int| 0 <= j < s.len() ==> s[j] != c,
        },
    decreases s.len(),
{
    if s.len() > 0 && s[0] != c {
        let t = s.skip(1);
        lemma_find_char(t, c);
        assert(forall|j: int| 0 <= j < t.len() ==> t[j] == s[j + 1]);
        match find_char(t, c) {
            Some(i) => {
                assert(s[i + 1] == t[i]);
                assert forall|j: int| 0 <= j < i + 1 implies s[j] != c by {
                    if j > 0 {
                        assert(s[j] == t[j - 1]);
                    }
                }
            },
            None => {
                assert forall|j: int| 0 <= j < s.len() implies s[j] != c by {
                    if j > 0 {
                        assert(s[j] == t[j - 1]);
                    }
                }
            },
        }
    }
}

/// Searches `s` from the front for `c` and returns the index of its first
/// occurrence.
pub fn str_find_char(s: &str, c: char) -> (r: Option<usize>)
    ensures
        match r {
            Some(i) => find_char(s@, c) == Some(i as int),
            None => find_char(s@, c) is None,
        },
{
    let n = s.unicode_len();
    let mut i: usize = 0;
    while i < n
        invariant
            n == s@.len(),
            0 <= i <= n,
            forall|j: int| 0 <= j < i ==> s@[j] != c,
        decreases n - i,
    {
        if s.get_char(i) == c {
            proof {
                lemma_find_char(s@, c);
            }
            return Some(i);
        }
        i = i + 1;
    }
    proof {
        lemma_find_char(s@, c);
    }
    None
}

/// The characters stripped from both ends by trimming.
pub open spec fn is_blank(c: char) -> bool {
    c == ' ' || c == '\t' || c == '\r' || c == '\n'
}

/// `s` with leading and trailing blank characters removed.
pub open spec fn spec_trim(s: Seq<char>) -> Seq<char>
    decreases s.len(),
{
    if s.len() == 0 {
        s
    } else if is_blank(s[0]) {
        spec_trim(s.skip(1))
    } else if is_blank(s.last()) {
        spec_trim(s.drop_last())
    } else {
        s
    }
}

/// Whether `c` is one of the blank characters trimming removes.
pub fn is_blank_char(c: char) -> (r: bool)
    ensures
        r == is_blank(c),
{
    c == ' ' || c == '\t' || c == '\r' || c == '\n'
}

/// Removes leading and trailing blank characters from `s`.
pub fn trim_str(s: &str) -> (r: &str)
    ensures
        r@ == spec_trim(s@),
    decreases s@.len(),
{
    let n = s.unicode_len();
    if n == 0 {
        s
    } else if is_blank_char(s.get_char(0)) {
        trim_str(s.substring_char(1, n))
    } else if is_blank_char(s.get_char(n - 1)) {
        let r = trim_str(s.substring_char(0, n - 1));
        proof {
            assert(s@.subrange(0, n - 1) =~= s@.drop_last());
        }
        r
    } else {
        proof {
            assert(s@.subrange(1, n as int) =~= s@.skip(1));
        }
        s
    }
}

/// Whether `c` occurs anywhere in `s`.
pub fn str_contains_char(s: &str, c: char) -> (r: bool)
    ensures
        r == s@.contains(c),
{
    proof {
        lemma_find_char(s@, c);
    }
    match str_find_char(s, c) {
        Some(_) => {
            true
        },
        None => {
            false
        },
    }
}

/// `s` divided at every occurrence of `sep`, keeping empty pieces: the
/// result always has one more piece than `s` has separators.
pub open spec fn spec_split(s: Seq<char>, sep: char) -> Seq<Seq<char>>
    decreases s.len(),
    via spec_split_decreases
{
    match find_char(s, sep) {
        None => seq![s],
        Some(i) => seq![s.subrange(0, i)] + spec_split(s.subrange(i + 1, s.len() as int), sep),
    }
}

#[via_fn]
proof fn spec_split_decreases(s: Seq<char>, sep: char) {
    lemma_find_char(s, sep);
}

/// Every piece of a split is no longer than the string it came from.
pub proof fn lemma_split_pieces_len(s: Seq<char>, sep: char)
    ensures
        spec_split(s, sep).len() >= 1,
        forall|k: int|
            0 <= k < spec_split(s, sep).len() ==> (#[trigger] spec_split(s, sep)[k]).len()
                <= s.len(),
    decreases s.len(),
{
    lemma_find_char(s, sep);
    if let Some(i) = find_char(s, sep) {
        lemma_split_pieces_len(s.subrange(i + 1, s.len() as int), sep);
    }
}

/// Splits `s` at every occurrence of `sep`.
pub fn split_str(s: &str, sep: char) -> (r: Vec<String>)
    ensures
        r.deep_view() == spec_split(s@, sep),
    decreases s@.len(),
{
    proof {
        lemma_find_char(s@, sep);
    }
    let n = s.unicode_len();
    match str_find_char(s, sep) {
        None => {
            let mut r: Vec<String> = Vec::new();
            r.push(s.to_owned());
            proof {
                assert(r.deep_view() =~= spec_split(s@, sep));
            }
            r
        },
        Some(i) => {
            let head = s.substring_char(0, i).to_owned();
            let rest = s.substring_char(i + 1, n);
            let mut r = split_str(rest, sep);
            r.insert(0, head);
            proof {
                assert(r.deep_view() =~= spec_split(s@, sep));
            }
            r
        },
    }
}

/// Like `spec_split`, but a trailing separator does not open a final empty
/// piece, and an empty string has no pieces at all.
pub open spec fn spec_split_terminator(s: Seq<char>, sep: char) -> Seq<Seq<char>> {
    if s.len() == 0 {
        Seq::empty()
    } else {
        let parts = spec_split(s, sep);
        if parts.last().len() == 0 {
            parts.drop_last()
        } else {
            parts
        }
    }
}

/// Splits `s` at `sep`, dropping the empty piece a trailing separator would
/// produce.
pub fn split_terminator_str(s: &str, sep: char) -> (r: Vec<String>)
    ensures
        r.deep_view() == spec_split_terminator(s@, sep),
{
    if s.unicode_len() == 0 {
        let r: Vec<String> = Vec::new();
        proof {
            assert(r.deep_view() =~= spec_split_terminator(s@, sep));
        }
        return r;
    }
    let mut parts = split_str(s, sep);
    proof {
        lemma_split_pieces_len(s@, sep);
        assert(parts.deep_view().len() == parts@.len());
    }
    let last = parts.len() - 1;
    if parts[last].unicode_len() == 0 {
        parts.pop();
        proof {
            assert(parts.deep_view() =~= spec_split_terminator(s@, sep));
        }
    } else {
        proof {
            assert(parts.deep_view() =~= spec_split_terminator(s@, sep));
        }
    }
    parts
}

/// `l` with one trailing carriage return removed, if present.
pub open spec fn strip_cr(l: Seq<char>) -> Seq<char> {
    if l.len() > 0 && l.last() == '\r' {
        l.drop_last()
    } else {
        l
    }
}

/// The lines of `s`: pieces between newlines, each stripped of the carriage
/// return of a `\r\n` ending; a final line ending opens no empty line.
pub open spec fn spec_lines(s: Seq<char>) -> Seq<Seq<char>> {
    if s.len() == 0 {
        Seq::empty()
    } else {
        let parts = spec_split(s, '\n');
        let init = parts.drop_last().map(|k: int, l: Seq<char>| strip_cr(l));
        if parts.last().len() == 0 {
            init
        } else {
            init + seq![parts.last()]
        }
    }
}

/// Removes the carriage return of a `\r\n` line ending.
fn strip_cr_string(l: String) -> (r: String)
    ensures
        r@ == strip_cr(l@),
{
    let n = l.as_str().unicode_len();
    if n > 0 && l.as_str().get_char(n - 1) == '\r' {
        let r = l.as_str().substring_char(0, n - 1).to_owned();
        proof {
            assert(l@.subrange(0, n - 1) =~= l@.drop_last());
        }
        r
    } else {
        l
    }
}

/// The lines of `s`, in order.
pub fn lines_of(s: &str) -> (r: Vec<String>)
    ensures
        r.deep_view() == spec_lines(s@),
{
    if s.unicode_len() == 0 {
        let r: Vec<String> = Vec::new();
        proof {
            assert(r.deep_view() =~= spec_lines(s@));
        }
        return r;
    }
    let mut parts = split_str(s, '\n');
    proof {
        lemma_split_pieces_len(s@, '\n');
        assert(parts.deep_view().len() == parts@.len());
    }
    let mut out: Vec<String> = Vec::new();
    let total = parts.len();
    let ghost pieces = spec_split(s@, '\n');
    let mut i: usize = 0;
    while i < total - 1
        invariant
            total == parts@.len(),
            total == pieces.len(),
            1 <= total,
            0 <= i <= total - 1,
            parts.deep_view() == pieces,
            out.deep_view() =~= pieces.drop_last().map(|k: int, l: Seq<char>| strip_cr(l)).take(
                i as int,
            ),
        decreases total - 1 - i,
    {
        let ghost prev = out.deep_view();
        let piece = strip_cr_string(parts[i].clone());
        out.push(piece);
        proof {
            assert(parts@[i as int]@ == pieces[i as int]);
            assert(out.deep_view() =~= prev.push(strip_cr(pieces[i as int])));
        }
        i = i + 1;
    }
    let last = parts.len() - 1;
    proof {
        assert(parts@[last as int]@ == pieces.last());
    }
    let ghost init = pieces.drop_last().map(|k: int, l: Seq<char>| strip_cr(l));
    proof {
        assert(i == total - 1);
        assert(init.take(i as int) =~= init);
        assert(out.deep_view() == init);
    }
    if parts[last].as_str().unicode_len() > 0 {
        let tail = parts.pop().unwrap();
        out.push(tail);
        proof {
            assert(out.deep_view() =~= init + seq![pieces.last()]);
            assert(out.deep_view() == spec_lines(s@));
        }
    } else {
        proof {
            assert(out.deep_view() == spec_lines(s@));
        }
    }
    out
}

/// The first line of `s`, when `s` is not empty: what precedes the first
/// newline, stripped of a `\r\n` ending.
pub open spec fn first_line(s: Seq<char>) -> Seq<char> {
    match find_char(s, '\n') {
        None => s,
        Some(i) => strip_cr(s.subrange(0, i)),
    }
}

/// Returns the first line of `s`.
pub fn first_line_str(s: &str) -> (r: String)
    ensures
        r@ == first_line(s@),
{
    proof {
        lemma_find_char(s@, '\n');
    }
    match str_find_char(s, '\n') {
        None => s.to_owned(),
        Some(i) => strip_cr_string(s.substring_char(0, i).to_owned()),
    }
}

/// The concatenation of all pieces, in order.
pub open spec fn concat_all(ls: Seq<Seq<char>>) -> Seq<char>
    decreases ls.len(),
{
    if ls.len() == 0 {
        Seq::empty()
    } else {
        ls[0] + concat_all(ls.skip(1))
    }
}

/// Appending one more piece extends the concatenation at the end.
pub proof fn lemma_concat_all_push(ls: Seq<Seq<char>>, l: Seq<char>)
    ensures
        concat_all(ls.push(l)) == concat_all(ls) + l,
    decreases ls.len(),
{
    if ls.len() == 0 {
        assert(ls.push(l).skip(1) =~= Seq::<Seq<char>>::empty());
        assert(concat_all(ls.push(l)) == ls.push(l)[0] + concat_all(Seq::<Seq<char>>::empty()));
        assert(ls.push(l)[0] == l);
        assert(l + Seq::<char>::empty() =~= Seq::<char>::empty() + l);
        assert(concat_all(ls.push(l)) == concat_all(ls) + l);
    } else {
        let rest = ls.skip(1);
        assert(ls.push(l).skip(1) =~= rest.push(l));
        lemma_concat_all_push(rest, l);
        assert(concat_all(ls.push(l)) == ls[0] + concat_all(rest.push(l)));
        assert(concat_all(rest.push(l)) == concat_all(rest) + l);
        assert(ls[0] + (concat_all(rest) + l) =~= (ls[0] + concat_all(rest)) + l);
        assert(concat_all(ls.push(l)) == concat_all(ls) + l);
    }
}

/// Whether a line survives comment filtering: its trimmed form is neither
/// empty nor opened by a `#`.
pub open spec fn keeps_line(l: Seq<char>) -> bool {
    spec_trim(l).len() > 0 && spec_trim(l)[0] != '#'
}

/// The lines of `s` that survive comment filtering, concatenated in order
/// with nothing between them.
pub open spec fn spec_filter_comments(s: Seq<char>) -> Seq<char> {
    concat_all(spec_lines(s).filter(|l: Seq<char>| keeps_line(l)))
}

/// Drops every line whose trimmed form is empty or starts with `#`, and
/// joins what is left without separators.
pub fn filter_comment_lines(s: &str) -> (r: String)
    ensures
        r@ == spec_filter_comments(s@),
{
    let lines = lines_of(s);
    let ghost all = spec_lines(s@);
    let mut out = String::new();
    let mut i: usize = 0;
    proof {
        assert(all.take(0).filter(|l: Seq<char>| keeps_line(l)) =~= Seq::<Seq<char>>::empty());
    }
    while i < lines.len()
        invariant
            lines.deep_view() == all,
            lines@.len() == all.len(),
            0 <= i <= all.len(),
            out@ == concat_all(all.take(i as int).filter(|l: Seq<char>| keeps_line(l))),
        decreases lines@.len() - i,
    {
        proof {
            assert(lines@[i as int]@ == all[i as int]);
        }
        let line = &lines[i];
        let trimmed = trim_str(line.as_str());
        let ghost prev = all.take(i as int).filter(|l: Seq<char>| keeps_line(l));
        let keep = if trimmed.unicode_len() == 0 {
            false
        } else {
            trimmed.get_char(0) != '#'
        };
        proof {
            assert(all.take(i + 1).drop_last() =~= all.take(i as int));
            assert(all.take(i + 1).last() == all[i as int]);
            reveal_with_fuel(Seq::filter, 2);
            if keep {
                assert(all.take(i + 1).filter(|l: Seq<char>| keeps_line(l)) =~= prev.push(
                    all[i as int],
                ));
                lemma_concat_all_push(prev, all[i as int]);
            } else {
                assert(all.take(i + 1).filter(|l: Seq<char>| keeps_line(l)) =~= prev);
            }
        }
        if keep {
            out.append(line.as_str());
        }
        i = i + 1;
    }
    proof {
        assert(all.take(all.len() as int) =~= all);
    }
    out
}

} // verus!
