//! Character-level text handling shared by the file formats of the timer:
//! splitting, line breaking, trimming, decimal numbers and ordering of keys.
//! Every function works on `char` sequences, the view of `str` and `String`.
use vstd::prelude::*;

verus! {

// ---------------------------------------------------------------------------
// Specifications
// ---------------------------------------------------------------------------

/// The pieces of `s` between the occurrences of `sep`, in order; there is
/// always one more piece than there are separators.
pub open spec fn pieces(s: Seq<char>, sep: char) -> Seq<Seq<char>>
    decreases s.len(),
{
    if s.len() == 0 {
        seq![Seq::<char>::empty()]
    } else {
        let p = pieces(s.drop_last(), sep);
        if s.last() == sep {
            p.push(Seq::<char>::empty())
        } else {
            p.update(p.len() - 1, p.last().push(s.last()))
        }
    }
}

/// A line without the carriage return that ended it.
pub open spec fn strip_cr(line: Seq<char>) -> Seq<char> {
    if line.len() > 0 && line.last() == '\r' {
        line.drop_last()
    } else {
        line
    }
}

/// The lines of a text: pieces between line feeds, each without a final
/// carriage return, where a final line feed ends the last line rather than
/// starting an empty one.
pub open spec fn lines(s: Seq<char>) -> Seq<Seq<char>> {
    let p = pieces(s, '\n');
    let body = p.drop_last().map_values(|l: Seq<char>| strip_cr(l));
    if p.last().len() == 0 {
        body
    } else {
        body.push(p.last())
    }
}

/// Unicode white space (the `White_Space` property).
pub open spec fn is_ws(c: char) -> bool {
    let n = c as int;
    ||| 9 <= n <= 13
    ||| n == 32
    ||| n == 0x85
    ||| n == 0xa0
    ||| n == 0x1680
    ||| 0x2000 <= n <= 0x200a
    ||| n == 0x2028
    ||| n == 0x2029
    ||| n == 0x202f
    ||| n == 0x205f
    ||| n == 0x3000
}

/// `s` without its leading white space.
pub open spec fn trim_start(s: Seq<char>) -> Seq<char>
    decreases s.len(),
{
    if s.len() > 0 && is_ws(s[0]) {
        trim_start(s.drop_first())
    } else {
        s
    }
}

/// `s` without its trailing white space.
pub open spec fn trim_end(s: Seq<char>) -> Seq<char>
    decreases s.len(),
{
    if s.len() > 0 && is_ws(s.last()) {
        trim_end(s.drop_last())
    } else {
        s
    }
}

/// `s` without leading and trailing white space.
pub open spec fn trim(s: Seq<char>) -> Seq<char> {
    trim_end(trim_start(s))
}

/// `s` with every occurrence of `c` taken out.
pub open spec fn without(s: Seq<char>, c: char) -> Seq<char>
    decreases s.len(),
{
    if s.len() == 0 {
        s
    } else if s.last() == c {
        without(s.drop_last(), c)
    } else {
        without(s.drop_last(), c).push(s.last())
    }
}

/// The character of a decimal digit.
pub open spec fn digit_char(d: nat) -> char {
    (48 + d) as char
}

/// The decimal notation of `n`, without leading zeros.
pub open spec fn decimal(n: nat) -> Seq<char>
    decreases n,
{
    if n < 10 {
        seq![digit_char(n)]
    } else {
        decimal(n / 10).push(digit_char(n % 10))
    }
}

/// `s` preceded by as many `'0'` as bring it to `width` characters.
pub open spec fn zero_pad(s: Seq<char>, width: nat) -> Seq<char> {
    if s.len() < width {
        Seq::new((width - s.len()) as nat, |i: int| '0') + s
    } else {
        s
    }
}

/// An ASCII decimal digit.
pub open spec fn is_digit(c: char) -> bool {
    48 <= (c as int) <= 57
}

/// All characters of `s` are ASCII decimal digits.
pub open spec fn all_digits(s: Seq<char>) -> bool {
    forall|i: int| 0 <= i < s.len() ==> is_digit(#[trigger] s[i])
}

/// The number that a sequence of digits denotes.
pub open spec fn digits_value(s: Seq<char>) -> nat
    decreases s.len(),
{
    if s.len() == 0 {
        0
    } else {
        digits_value(s.drop_last()) * 10 + ((s.last() as int) - 48) as nat
    }
}

/// What remains of the text of an unsigned number after its optional `+`.
pub open spec fn unsigned_body(s: Seq<char>) -> Seq<char> {
    if s.len() > 0 && s[0] == '+' {
        s.drop_first()
    } else {
        s
    }
}

/// The unsigned number written in `s` (an optional `+`, then at least one
/// ASCII digit), when it is at most `max`.
pub open spec fn parse_unsigned(s: Seq<char>, max: nat) -> Option<nat> {
    let b = unsigned_body(s);
    if b.len() > 0 && all_digits(b) && digits_value(b) <= max {
        Some(digits_value(b))
    } else {
        None
    }
}

/// Lexicographic order of character sequences by code point (for UTF-8
/// text this is also the order of the bytes).
pub open spec fn lex_le(a: Seq<char>, b: Seq<char>) -> bool
    decreases a.len(),
{
    if a.len() == 0 {
        true
    } else if b.len() == 0 {
        false
    } else if a[0] != b[0] {
        (a[0] as int) < (b[0] as int)
    } else {
        lex_le(a.drop_first(), b.drop_first())
    }
}

/// The number of bytes of the UTF-8 encoding of `c`.
pub open spec fn char_width(c: char) -> nat {
    let n = c as int;
    if n < 0x80 {
        1
    } else if n < 0x800 {
        2
    } else if n < 0x10000 {
        3
    } else {
        4
    }
}

/// The number of bytes of the UTF-8 encoding of `s` (what `str::len` gives).
pub open spec fn utf8_len(s: Seq<char>) -> nat
    decreases s.len(),
{
    if s.len() == 0 {
        0
    } else {
        utf8_len(s.drop_last()) + char_width(s.last())
    }
}

/// The first `i` characters of `s` take `b` bytes: byte offset `b` is a
/// character boundary of `s`, and `i` is the character index there.
pub open spec fn at_byte(s: Seq<char>, b: nat, i: int) -> bool {
    0 <= i <= s.len() && utf8_len(s.take(i)) == b
}

/// The largest `u32`.
pub open spec fn u32_max() -> nat {
    0xffff_ffff
}

/// `true` or `false`.
pub open spec fn bool_text(b: bool) -> Seq<char> {
    if b {
        "true"@
    } else {
        "false"@
    }
}

/// The contents of a sequence of character vectors.
pub open spec fn views(v: Seq<Vec<char>>) -> Seq<Seq<char>> {
    Seq::new(v.len(), |i: int| v[i]@)
}

/// Every element followed by a line feed, all put together.
pub open spec fn unlines(ls: Seq<Seq<char>>) -> Seq<char>
    decreases ls.len(),
{
    if ls.len() == 0 {
        Seq::empty()
    } else {
        unlines(ls.drop_last()) + ls.last().push('\n')
    }
}

/// The elements joined, with `sep` between two neighbours.
pub open spec fn join(ls: Seq<Seq<char>>, sep: char) -> Seq<char>
    decreases ls.len(),
{
    if ls.len() == 0 {
        Seq::empty()
    } else if ls.len() == 1 {
        ls[0]
    } else {
        join(ls.drop_last(), sep).push(sep) + ls.last()
    }
}

// ---------------------------------------------------------------------------
// Lemmas
// ---------------------------------------------------------------------------

pub proof fn lemma_pieces_nonempty(s: Seq<char>, sep: char)
    ensures
        pieces(s, sep).len() >= 1,
    decreases s.len(),
{
    if s.len() > 0 {
        lemma_pieces_nonempty(s.drop_last(), sep);
    }
}

pub proof fn lemma_utf8_len_take_mono(s: Seq<char>, i: int, j: int)
    requires
        0 <= i < j <= s.len(),
    ensures
        utf8_len(s.take(i)) < utf8_len(s.take(j)),
    decreases j - i,
{
    assert(s.take(j).drop_last() =~= s.take(j - 1));
    if i < j - 1 {
        lemma_utf8_len_take_mono(s, i, j - 1);
    }
}

/// A byte offset is the boundary of at most one character index.
pub proof fn lemma_at_byte_unique(s: Seq<char>, b: nat, i: int, j: int)
    requires
        at_byte(s, b, i),
        at_byte(s, b, j),
    ensures
        i == j,
{
    if i < j {
        lemma_utf8_len_take_mono(s, i, j);
    } else if j < i {
        lemma_utf8_len_take_mono(s, j, i);
    }
}

pub proof fn lemma_digits_value_mono(s: Seq<char>, i: int)
    requires
        0 <= i <= s.len(),
    ensures
        digits_value(s.take(i)) <= digits_value(s),
    decreases s.len(),
{
    if i < s.len() {
        assert(s.drop_last().take(i) =~= s.take(i));
        lemma_digits_value_mono(s.drop_last(), i);
    } else {
        assert(s.take(i) =~= s);
    }
}

pub proof fn lemma_lex_le_total(a: Seq<char>, b: Seq<char>)
    ensures
        lex_le(a, b) || lex_le(b, a),
    decreases a.len(),
{
    if a.len() > 0 && b.len() > 0 {
        if a[0] == b[0] {
            lemma_lex_le_total(a.drop_first(), b.drop_first());
        } else {
            assert((a[0] as int) != (b[0] as int));
        }
    }
}

pub proof fn lemma_lex_le_trans(a: Seq<char>, b: Seq<char>, c: Seq<char>)
    requires
        lex_le(a, b),
        lex_le(b, c),
    ensures
        lex_le(a, c),
    decreases a.len(),
{
    if a.len() > 0 && b.len() > 0 && c.len() > 0 && a[0] == b[0] && b[0] == c[0] {
        lemma_lex_le_trans(a.drop_first(), b.drop_first(), c.drop_first());
    }
}

pub proof fn lemma_lex_le_antisym(a: Seq<char>, b: Seq<char>)
    requires
        lex_le(a, b),
        lex_le(b, a),
    ensures
        a == b,
    decreases a.len(),
{
    if a.len() > 0 && b.len() > 0 {
        lemma_lex_le_antisym(a.drop_first(), b.drop_first());
        assert(a =~= seq![a[0]] + a.drop_first());
        assert(b =~= seq![b[0]] + b.drop_first());
    }
}

pub proof fn lemma_lex_le_refl(a: Seq<char>)
    ensures
        lex_le(a, a),
    decreases a.len(),
{
    if a.len() > 0 {
        lemma_lex_le_refl(a.drop_first());
    }
}

pub proof fn lemma_unlines_push(ls: Seq<Seq<char>>, l: Seq<char>)
    ensures
        unlines(ls.push(l)) == unlines(ls) + l.push('\n'),
{
    assert(ls.push(l).drop_last() =~= ls);
}

pub proof fn lemma_pieces_append(s: Seq<char>, t: Seq<char>, sep: char)
    requires
        !t.contains(sep),
    ensures
        pieces(s + t, sep) == pieces(s, sep).update(
            pieces(s, sep).len() - 1,
            pieces(s, sep).last() + t,
        ),
    decreases t.len(),
{
    lemma_pieces_nonempty(s, sep);
    if t.len() == 0 {
        assert(s + t =~= s);
        assert(pieces(s, sep).last() + t =~= pieces(s, sep).last());
        assert(pieces(s, sep).update(pieces(s, sep).len() - 1, pieces(s, sep).last())
            =~= pieces(s, sep));
    } else {
        let t0 = t.drop_last();
        assert(!t0.contains(sep)) by {
            if t0.contains(sep) {
                let k = choose|k: int| 0 <= k < t0.len() && t0[k] == sep;
                assert(t[k] == sep);
            }
        }
        assert(t.last() != sep) by {
            assert(t[t.len() - 1] == t.last());
        }
        lemma_pieces_append(s, t0, sep);
        assert((s + t).drop_last() =~= s + t0);
        assert((s + t).last() == t.last());
        lemma_pieces_nonempty(s + t0, sep);
        assert(pieces(s, sep).last() + t =~= (pieces(s, sep).last() + t0).push(t.last()));
        assert(pieces(s + t, sep) =~= pieces(s, sep).update(
            pieces(s, sep).len() - 1,
            pieces(s, sep).last() + t,
        ));
    }
}

/// Text made of lines that hold no line feed is split back into those
/// lines (each without a final carriage return).
pub proof fn lemma_lines_unlines(ls: Seq<Seq<char>>)
    requires
        forall|i: int| 0 <= i < ls.len() ==> !(#[trigger] ls[i]).contains('\n'),
    ensures
        pieces(unlines(ls), '\n') == ls.push(Seq::<char>::empty()),
        lines(unlines(ls)) == ls.map_values(|l: Seq<char>| strip_cr(l)),
    decreases ls.len(),
{
    if ls.len() == 0 {
        assert(pieces(unlines(ls), '\n') =~= ls.push(Seq::<char>::empty()));
    } else {
        let rest = ls.drop_last();
        let l = ls.last();
        assert(!l.contains('\n')) by {
            assert(ls[ls.len() - 1] == l);
        }
        assert forall|i: int| 0 <= i < rest.len() implies !(#[trigger] rest[i]).contains('\n') by {
            assert(rest[i] == ls[i]);
        }
        lemma_lines_unlines(rest);
        lemma_pieces_append(unlines(rest), l, '\n');
        let u = unlines(rest) + l;
        assert(unlines(ls) =~= u.push('\n'));
        assert(u.push('\n').drop_last() =~= u);
        assert(pieces(unlines(rest), '\n').last() + l =~= l);
        assert(pieces(u, '\n') =~= rest.push(l));
        assert(pieces(unlines(ls), '\n') =~= ls.push(Seq::<char>::empty()));
    }
    let p = pieces(unlines(ls), '\n');
    assert(p.drop_last() =~= ls);
}

/// What the text of a truth value is made of.
pub proof fn lemma_bool_text(b: bool)
    ensures
        trim(bool_text(b)) == bool_text(b),
        !bool_text(b).contains('\n'),
        !bool_text(b).contains('='),
        bool_text(b).len() > 0,
        bool_text(b).last() != '\r',
        (bool_text(b) == "true"@) == b,
{
    reveal_strlit("true");
    reveal_strlit("false");
    lemma_trim_id(bool_text(b));
    assert("true"@.len() == 4);
    assert("false"@.len() == 5);
}

proof fn lemma_pieces_count(s: Seq<char>, sep: char)
    ensures
        pieces(s, sep).len() >= 1,
        pieces(s, sep).len() - 1 + pieces(s, sep).last().len() <= s.len(),
    decreases s.len(),
{
    if s.len() > 0 {
        lemma_pieces_count(s.drop_last(), sep);
    }
}

/// A text has at most as many lines as characters.
pub proof fn lemma_lines_len(s: Seq<char>)
    ensures
        lines(s).len() <= s.len(),
{
    lemma_pieces_count(s, '\n');
}

/// Two texts without line feeds make one without.
pub proof fn lemma_no_lf_concat(a: Seq<char>, b: Seq<char>)
    requires
        !a.contains('\n'),
        !b.contains('\n'),
    ensures
        !(a + b).contains('\n'),
{
    if (a + b).contains('\n') {
        let k = choose|k: int| 0 <= k < (a + b).len() && (a + b)[k] == '\n';
        if k < a.len() {
            assert(a[k] == '\n');
        } else {
            assert(b[k - a.len()] == '\n');
        }
    }
}

/// Lines without line feeds and without a final carriage return, written
/// one per line, are read back as they were.
pub proof fn lemma_lines_of_unlines(ls: Seq<Seq<char>>)
    requires
        forall|i: int|
            0 <= i < ls.len() ==> !(#[trigger] ls[i]).contains('\n') && strip_cr(ls[i]) == ls[i],
    ensures
        lines(unlines(ls)) == ls,
{
    lemma_lines_unlines(ls);
    assert(ls.map_values(|l: Seq<char>| strip_cr(l)) =~= ls);
}

/// The lines of a text hold no line feed.
pub proof fn lemma_lines_no_lf(s: Seq<char>)
    ensures
        forall|i: int| 0 <= i < lines(s).len() ==> !(#[trigger] lines(s)[i]).contains('\n'),
{
    lemma_pieces_no_sep(s, '\n');
    let p = pieces(s, '\n');
    lemma_pieces_nonempty(s, '\n');
    assert forall|i: int| 0 <= i < lines(s).len() implies !(#[trigger] lines(s)[i]).contains('\n') by {
        let l = p[i];
        assert(!l.contains('\n'));
        if i < p.len() - 1 {
            assert(lines(s)[i] == strip_cr(l));
            if strip_cr(l).contains('\n') {
                let k = choose|k: int| 0 <= k < strip_cr(l).len() && strip_cr(l)[k] == '\n';
                assert(l[k] == '\n');
            }
        }
    }
}

pub proof fn lemma_pieces_no_sep(s: Seq<char>, sep: char)
    ensures
        forall|i: int| 0 <= i < pieces(s, sep).len() ==> !(#[trigger] pieces(s, sep)[i]).contains(sep),
    decreases s.len(),
{
    if s.len() > 0 {
        lemma_pieces_no_sep(s.drop_last(), sep);
        lemma_pieces_nonempty(s.drop_last(), sep);
        let p = pieces(s.drop_last(), sep);
        if s.last() != sep {
            assert forall|i: int| 0 <= i < pieces(s, sep).len() implies !(#[trigger] pieces(s, sep)[i]).contains(sep) by {
                if i == p.len() - 1 {
                    let l = p.last().push(s.last());
                    if l.contains(sep) {
                        let k = choose|k: int| 0 <= k < l.len() && l[k] == sep;
                        if k < p.last().len() {
                            assert(p[p.len() - 1][k] == sep);
                        }
                    }
                } else {
                    assert(pieces(s, sep)[i] == p[i]);
                }
            }
        } else {
            assert forall|i: int| 0 <= i < pieces(s, sep).len() implies !(#[trigger] pieces(s, sep)[i]).contains(sep) by {
                if i < p.len() {
                    assert(pieces(s, sep)[i] == p[i]);
                }
            }
        }
    }
}

/// Joining pieces that hold no separator and splitting the result again
/// gives the pieces back.
pub proof fn lemma_pieces_join(ls: Seq<Seq<char>>, sep: char)
    requires
        ls.len() >= 1,
        forall|i: int| 0 <= i < ls.len() ==> !(#[trigger] ls[i]).contains(sep),
    ensures
        pieces(join(ls, sep), sep) == ls,
    decreases ls.len(),
{
    if ls.len() == 1 {
        lemma_pieces_append(Seq::<char>::empty(), ls[0], sep);
        assert(Seq::<char>::empty() + ls[0] =~= ls[0]);
        assert(pieces(Seq::<char>::empty(), sep).last() + ls[0] =~= ls[0]);
        assert(seq![Seq::<char>::empty()].update(0, ls[0]) =~= ls);
    } else {
        let rest = ls.drop_last();
        assert forall|i: int| 0 <= i < rest.len() implies !(#[trigger] rest[i]).contains(sep) by {
            assert(rest[i] == ls[i]);
        }
        lemma_pieces_join(rest, sep);
        let x = join(rest, sep);
        assert(x.push(sep).drop_last() =~= x);
        assert(pieces(x.push(sep), sep) == ls.drop_last().push(Seq::<char>::empty()));
        assert(!ls.last().contains(sep)) by {
            assert(ls[ls.len() - 1] == ls.last());
        }
        lemma_pieces_append(x.push(sep), ls.last(), sep);
        assert(Seq::<char>::empty() + ls.last() =~= ls.last());
        assert(rest.push(Seq::<char>::empty()).update(rest.len() as int, ls.last()) =~= ls);
    }
}

/// A character that is not the separator and that no piece holds is not
/// in the joined text.
pub proof fn lemma_join_lacks(ls: Seq<Seq<char>>, sep: char, c: char)
    requires
        c != sep,
        forall|i: int| 0 <= i < ls.len() ==> !(#[trigger] ls[i]).contains(c),
    ensures
        !join(ls, sep).contains(c),
    decreases ls.len(),
{
    if ls.len() == 1 {
        assert(!ls[0].contains(c));
    } else if ls.len() > 1 {
        let rest = ls.drop_last();
        assert forall|i: int| 0 <= i < rest.len() implies !(#[trigger] rest[i]).contains(c) by {
            assert(rest[i] == ls[i]);
        }
        lemma_join_lacks(rest, sep, c);
        let x = join(rest, sep).push(sep);
        let l = ls.last();
        assert(!l.contains(c)) by {
            assert(ls[ls.len() - 1] == l);
        }
        if (x + l).contains(c) {
            let k = choose|k: int| 0 <= k < (x + l).len() && (x + l)[k] == c;
            if k < x.len() - 1 {
                assert(join(rest, sep)[k] == c);
            } else if k >= x.len() {
                assert(l[k - x.len()] == c);
            }
        }
    }
}

/// The last character of joined pieces: that of the last piece, or the
/// separator when the last piece is empty.
pub proof fn lemma_join_last(ls: Seq<Seq<char>>, sep: char)
    requires
        ls.len() >= 2,
    ensures
        join(ls, sep).len() > 0,
        join(ls, sep).last() == if ls.last().len() > 0 {
            ls.last().last()
        } else {
            sep
        },
{
    let x = join(ls.drop_last(), sep).push(sep);
    assert(join(ls, sep) == x + ls.last());
    if ls.last().len() > 0 {
        assert((x + ls.last()).last() == ls.last().last());
    } else {
        assert(x + ls.last() =~= x);
    }
}

/// Splitting a text and joining the pieces gives the text back.
pub proof fn lemma_join_pieces(s: Seq<char>, sep: char)
    ensures
        join(pieces(s, sep), sep) == s,
    decreases s.len(),
{
    lemma_pieces_nonempty(s, sep);
    if s.len() == 0 {
        assert(pieces(s, sep) =~= seq![Seq::<char>::empty()]);
    } else {
        let t = s.drop_last();
        lemma_join_pieces(t, sep);
        lemma_pieces_nonempty(t, sep);
        let p = pieces(t, sep);
        if s.last() == sep {
            let q = p.push(Seq::<char>::empty());
            assert(q.drop_last() =~= p);
            assert(join(q, sep) =~= t.push(sep));
            assert(s =~= t.push(sep));
        } else {
            let q = p.update(p.len() - 1, p.last().push(s.last()));
            if p.len() == 1 {
                assert(join(q, sep) == q[0]);
                assert(join(p, sep) == p[0]);
                assert(s =~= t.push(s.last()));
            } else {
                assert(q.drop_last() =~= p.drop_last());
                assert(join(q, sep) =~= join(p.drop_last(), sep).push(sep) + p.last().push(s.last()));
                assert(join(p, sep) == join(p.drop_last(), sep).push(sep) + p.last());
                assert(s =~= t.push(s.last()));
            }
        }
    }
}

/// A character that the text lacks is in none of its pieces.
pub proof fn lemma_piece_in_text(s: Seq<char>, sep: char, i: int, c: char)
    requires
        !s.contains(c),
        0 <= i < pieces(s, sep).len(),
    ensures
        !pieces(s, sep)[i].contains(c),
    decreases s.len(),
{
    if s.len() > 0 {
        let t = s.drop_last();
        assert(!t.contains(c)) by {
            if t.contains(c) {
                let k = choose|k: int| 0 <= k < t.len() && t[k] == c;
                assert(s[k] == c);
            }
        }
        lemma_pieces_nonempty(t, sep);
        let p = pieces(t, sep);
        if s.last() == sep {
            if i < p.len() {
                lemma_piece_in_text(t, sep, i, c);
            }
        } else if i < p.len() - 1 {
            lemma_piece_in_text(t, sep, i, c);
        } else {
            lemma_piece_in_text(t, sep, i, c);
            let l = p.last().push(s.last());
            assert(s.last() != c) by {
                assert(s[s.len() - 1] == s.last());
            }
            if l.contains(c) {
                let k = choose|k: int| 0 <= k < l.len() && l[k] == c;
                if k < p.last().len() {
                    assert(p[i][k] == c);
                }
            }
        }
    }
}

/// In text of ASCII characters each character takes one byte.
pub proof fn lemma_utf8_len_ascii(s: Seq<char>)
    requires
        forall|i: int| 0 <= i < s.len() ==> (#[trigger] s[i] as int) < 128,
    ensures
        utf8_len(s) == s.len(),
    decreases s.len(),
{
    if s.len() > 0 {
        let t = s.drop_last();
        assert forall|i: int| 0 <= i < t.len() implies (#[trigger] t[i] as int) < 128 by {
            assert(t[i] == s[i]);
        }
        lemma_utf8_len_ascii(t);
        assert(s.last() == s[s.len() - 1]);
    }
}

/// Taking out a character that the text lacks changes nothing.
pub proof fn lemma_without_absent(s: Seq<char>, c: char)
    requires
        !s.contains(c),
    ensures
        without(s, c) == s,
    decreases s.len(),
{
    if s.len() > 0 {
        let t = s.drop_last();
        assert(!t.contains(c)) by {
            if t.contains(c) {
                let k = choose|k: int| 0 <= k < t.len() && t[k] == c;
                assert(s[k] == c);
            }
        }
        lemma_without_absent(t, c);
        assert(s.last() == s[s.len() - 1]);
        assert(t.push(s.last()) =~= s);
    }
}

/// Once a character is taken out, the text lacks it.
pub proof fn lemma_without_lacks(s: Seq<char>, c: char)
    ensures
        !without(s, c).contains(c),
    decreases s.len(),
{
    if s.len() > 0 {
        lemma_without_lacks(s.drop_last(), c);
        let w = without(s.drop_last(), c);
        if s.last() != c {
            if w.push(s.last()).contains(c) {
                let k = choose|k: int| 0 <= k < w.push(s.last()).len() && w.push(s.last())[k] == c;
                if k < w.len() {
                    assert(w[k] == c);
                }
            }
        }
    }
}

/// Taking a character out of the text made of it alone leaves nothing.
pub proof fn lemma_without_single(c: char)
    ensures
        without(seq![c], c) == Seq::<char>::empty(),
{
    let s = seq![c];
    assert(s.len() == 1);
    assert(s.drop_last() =~= Seq::<char>::empty());
    assert(s.last() == c);
    assert(without(Seq::<char>::empty(), c) == Seq::<char>::empty());
    assert(without(s, c) == without(s.drop_last(), c));
}

/// Taking a character out of two texts put together.
pub proof fn lemma_without_concat(a: Seq<char>, b: Seq<char>, c: char)
    ensures
        without(a + b, c) == without(a, c) + without(b, c),
    decreases b.len(),
{
    if b.len() == 0 {
        assert(a + b =~= a);
        assert(without(a, c) + without(b, c) =~= without(a, c));
    } else {
        lemma_without_concat(a, b.drop_last(), c);
        assert((a + b).drop_last() =~= a + b.drop_last());
        assert((a + b).last() == b.last());
        if b.last() != c {
            assert(without(a, c) + without(b, c) =~= (without(a, c) + without(b.drop_last(), c)).push(
                b.last(),
            ));
        }
    }
}

/// Decimal notation holds only digits, so neither a comma, a dash nor a
/// line feed.
pub proof fn lemma_decimal_lacks(n: nat, c: char)
    requires
        !is_digit(c),
    ensures
        !decimal(n).contains(c),
{
    lemma_decimal_digits(n);
    if decimal(n).contains(c) {
        let k = choose|k: int| 0 <= k < decimal(n).len() && decimal(n)[k] == c;
        assert(is_digit(decimal(n)[k]));
    }
}

/// Digits without white space at either end are their own trimmed form.
pub proof fn lemma_trim_id(s: Seq<char>)
    requires
        s.len() == 0 || (!is_ws(s[0]) && !is_ws(s.last())),
    ensures
        trim(s) == s,
{
}

proof fn lemma_trim_start_len(s: Seq<char>)
    ensures
        trim_start(s).len() <= s.len(),
        s.len() > 0 && is_ws(s[0]) ==> trim_start(s).len() < s.len(),
    decreases s.len(),
{
    if s.len() > 0 && is_ws(s[0]) {
        lemma_trim_start_len(s.drop_first());
    }
}

proof fn lemma_trim_end_len(s: Seq<char>)
    ensures
        trim_end(s).len() <= s.len(),
        s.len() > 0 && is_ws(s.last()) ==> trim_end(s).len() < s.len(),
    decreases s.len(),
{
    if s.len() > 0 && is_ws(s.last()) {
        lemma_trim_end_len(s.drop_last());
    }
}

/// A non-empty trimmed text starts and ends with a character that is not
/// white space.
pub proof fn lemma_trimmed_ends(s: Seq<char>)
    requires
        trim(s) == s,
        s.len() > 0,
    ensures
        !is_ws(s[0]),
        !is_ws(s.last()),
{
    lemma_trim_start_len(s);
    lemma_trim_end_len(trim_start(s));
    if !is_ws(s[0]) {
        assert(trim_start(s) == s);
        lemma_trim_end_len(s);
    }
}

/// The decimal notation of a number is a sequence of digits that denotes
/// it.
pub proof fn lemma_decimal_digits(n: nat)
    ensures
        decimal(n).len() >= 1,
        all_digits(decimal(n)),
        digits_value(decimal(n)) == n,
    decreases n,
{
    if n >= 10 {
        lemma_decimal_digits(n / 10);
        let d = decimal(n / 10);
        assert(decimal(n) == d.push(digit_char(n % 10)));
        assert(decimal(n).drop_last() =~= d);
        assert((digit_char(n % 10) as int) == 48 + n % 10);
        assert(decimal(n).last() == digit_char(n % 10));
        assert(digits_value(decimal(n)) == digits_value(d) * 10 + (n % 10));
        assert(digits_value(d) == n / 10);
        assert((n / 10) * 10 + n % 10 == n);
        assert forall|i: int| 0 <= i < decimal(n).len() implies is_digit(#[trigger] decimal(n)[i]) by {
            if i < d.len() {
                assert(decimal(n)[i] == d[i]);
            }
        }
    } else {
        assert(decimal(n).drop_last() =~= Seq::<char>::empty());
        assert((digit_char(n) as int) == 48 + n);
        assert(decimal(n).last() == digit_char(n));
        assert(digits_value(Seq::<char>::empty()) == 0);
        assert(digits_value(decimal(n)) == digits_value(decimal(n).drop_last()) * 10 + n);
    }
}

/// A number written in decimal is read back.
pub proof fn lemma_parse_decimal(n: nat, max: nat)
    requires
        n <= max,
    ensures
        parse_unsigned(decimal(n), max) == Some(n),
        trim(decimal(n)) == decimal(n),
        !decimal(n).contains('\n'),
        !decimal(n).contains('='),
        decimal(n).last() != '\r',
{
    lemma_decimal_digits(n);
    let d = decimal(n);
    assert(is_digit(d[0]));
    assert(is_digit(d[d.len() - 1]));
    assert(unsigned_body(d) == d);
    lemma_trim_id(d);
    assert(!d.contains('\n')) by {
        if d.contains('\n') {
            let k = choose|k: int| 0 <= k < d.len() && d[k] == '\n';
            assert(is_digit(d[k]));
        }
    }
    assert(!d.contains('=')) by {
        if d.contains('=') {
            let k = choose|k: int| 0 <= k < d.len() && d[k] == '=';
            assert(is_digit(d[k]));
        }
    }
}

/// A line `key=value` whose key holds no `=` and whose parts are trimmed
/// is read back as that key and value.
pub proof fn lemma_key_value_pair(k: Seq<char>, v: Seq<char>)
    requires
        !k.contains('='),
        trim(k) == k,
        trim(v) == v,
    ensures
        key_value(k + seq!['='] + v) == Some((k, v)),
{
    let line = k + seq!['='] + v;
    let i = k.len() as int;
    assert(line[i] == '=');
    assert forall|j: int| 0 <= j < i implies line[j] != '=' by {
        assert(line[j] == k[j]);
    }
    assert(is_first_index(line, '=', i));
    let j = choose|j: int| is_first_index(line, '=', j);
    if j < i {
        assert(line[j] == k[j]);
    } else if i < j {
        assert(line[i] != '=');
    }
    assert(line.take(i) =~= k);
    assert(line.skip(i + 1) =~= v);
}

/// Comparing two texts that start with parts of the same length compares
/// those parts first, and the rest only where they are equal.
pub proof fn lemma_lex_le_concat(a1: Seq<char>, b1: Seq<char>, a2: Seq<char>, b2: Seq<char>)
    requires
        a1.len() == a2.len(),
    ensures
        a1 != a2 ==> (lex_le(a1 + b1, a2 + b2) <==> lex_le(a1, a2)),
        a1 == a2 ==> (lex_le(a1 + b1, a2 + b2) <==> lex_le(b1, b2)),
    decreases a1.len(),
{
    if a1.len() > 0 {
        assert((a1 + b1).drop_first() =~= a1.drop_first() + b1);
        assert((a2 + b2).drop_first() =~= a2.drop_first() + b2);
        lemma_lex_le_concat(a1.drop_first(), b1, a2.drop_first(), b2);
        if a1[0] == a2[0] && a1 != a2 {
            assert(a1.drop_first() != a2.drop_first()) by {
                if a1.drop_first() == a2.drop_first() {
                    assert(a1 =~= seq![a1[0]] + a1.drop_first());
                    assert(a2 =~= seq![a2[0]] + a2.drop_first());
                }
            }
        }
    } else {
        assert(a1 =~= a2);
        assert(a1 + b1 =~= b1);
        assert(a2 + b2 =~= b2);
    }
}

/// Two digit sequences of the same length are in text order exactly when
/// the numbers they denote are in order.
pub proof fn lemma_digits_lex(a: Seq<char>, b: Seq<char>)
    requires
        a.len() == b.len(),
        all_digits(a),
        all_digits(b),
    ensures
        lex_le(a, b) <==> digits_value(a) <= digits_value(b),
        a == b <==> digits_value(a) == digits_value(b),
    decreases a.len(),
{
    if a.len() > 0 {
        let a0 = a.drop_last();
        let b0 = b.drop_last();
        assert(all_digits(a0) && all_digits(b0)) by {
            assert forall|i: int| 0 <= i < a0.len() implies is_digit(#[trigger] a0[i]) by {
                assert(a0[i] == a[i]);
            }
            assert forall|i: int| 0 <= i < b0.len() implies is_digit(#[trigger] b0[i]) by {
                assert(b0[i] == b[i]);
            }
        }
        lemma_digits_value_mono(a, 0);
        lemma_digits_lex(a0, b0);
        assert(a =~= a0 + seq![a.last()]);
        assert(b =~= b0 + seq![b.last()]);
        lemma_lex_le_concat(a0, seq![a.last()], b0, seq![b.last()]);
        assert(is_digit(a[a.len() - 1]) && is_digit(b[b.len() - 1]));
        let da = (a.last() as int) - 48;
        let db = (b.last() as int) - 48;
        assert(digits_value(a) == digits_value(a0) * 10 + da);
        assert(digits_value(b) == digits_value(b0) * 10 + db);
        if a0 == b0 {
            reveal_with_fuel(lex_le, 2);
            assert(seq![a.last()].drop_first() =~= Seq::<char>::empty());
            assert(seq![b.last()].drop_first() =~= Seq::<char>::empty());
            if a.last() == b.last() {
                assert(a =~= b);
            }
        } else if digits_value(a0) < digits_value(b0) {
            assert(digits_value(a) < digits_value(b));
        } else {
            assert(digits_value(a) > digits_value(b));
        }
    } else {
        assert(a =~= b);
    }
}

/// Zeros in front of a sequence of digits do not change the number it
/// denotes.
proof fn lemma_zeros_value(z: nat, t: Seq<char>)
    ensures
        digits_value(Seq::new(z, |i: int| '0') + t) == digits_value(t),
    decreases t.len(), z,
{
    let zs = Seq::new(z, |i: int| '0');
    if t.len() > 0 {
        assert((zs + t).drop_last() =~= zs + t.drop_last());
        assert((zs + t).last() == t.last());
        lemma_zeros_value(z, t.drop_last());
    } else if z > 0 {
        assert(zs + t =~= zs);
        assert(zs.drop_last() =~= Seq::new((z - 1) as nat, |i: int| '0') + t);
        lemma_zeros_value((z - 1) as nat, t);
    } else {
        assert(zs + t =~= t);
    }
}

/// A number padded with zeros to a width it fits in has that width, is
/// all digits, and denotes the number.
pub proof fn lemma_zero_pad_digits(n: nat, w: nat)
    requires
        decimal(n).len() <= w,
    ensures
        zero_pad(decimal(n), w).len() == w,
        all_digits(zero_pad(decimal(n), w)),
        digits_value(zero_pad(decimal(n), w)) == n,
{
    lemma_decimal_digits(n);
    let d = decimal(n);
    if d.len() < w {
        let z = (w - d.len()) as nat;
        let p = zero_pad(d, w);
        assert(p == Seq::new(z, |i: int| '0') + d);
        lemma_zeros_value(z, d);
        assert forall|i: int| 0 <= i < p.len() implies is_digit(#[trigger] p[i]) by {
            if i >= z {
                assert(p[i] == d[i - z]);
            }
        }
    }
}

// ---------------------------------------------------------------------------
// Executable functions
// ---------------------------------------------------------------------------

/// Appends a character to a string.
/// Trusted: calls `String::push` of std, which appends `c` to the contents.
#[verifier::external_body]
pub(crate) fn push_char(s: &mut String, c: char)
    ensures
        final(s)@ == old(s)@.push(c),
{
    s.push(c)
}

/// The characters of a string slice, in order.
pub fn chars_of(s: &str) -> (res: Vec<char>)
    ensures
        res@ == s@,
{
    let mut res: Vec<char> = Vec::new();
    for c in it: s.chars()
        invariant
            res@ == it.seq().take(it.index() as int),
    {
        res.push(c);
    }
    res
}

/// Appends the characters of `cs` to `out`.
pub fn push_chars(out: &mut String, cs: &[char])
    ensures
        final(out)@ == old(out)@ + cs@,
{
    let mut i: usize = 0;
    while i < cs.len()
        invariant
            i <= cs.len(),
            out@ == old(out)@ + cs@.take(i as int),
        decreases cs.len() - i,
    {
        push_char(out, cs[i]);
        i = i + 1;
        assert(cs@.take(i as int) =~= cs@.take(i - 1).push(cs@[i - 1]));
    }
    assert(cs@.take(cs.len() as int) =~= cs@);
}

/// A string made of the characters of `cs`.
pub fn string_of(cs: &[char]) -> (res: String)
    ensures
        res@ == cs@,
{
    let mut res = String::new();
    push_chars(&mut res, cs);
    res
}

/// Appends a string slice to `out`.
pub fn push_str(out: &mut String, s: &str)
    ensures
        final(out)@ == old(out)@ + s@,
{
    let cs = chars_of(s);
    push_chars(out, cs.as_slice());
}

/// The pieces of `s` between occurrences of `sep`.
pub fn split_chars(s: &[char], sep: char) -> (res: Vec<Vec<char>>)
    ensures
        views(res@) == pieces(s@, sep),
{
    let mut done: Vec<Vec<char>> = Vec::new();
    let mut cur: Vec<char> = Vec::new();
    let mut i: usize = 0;
    assert(s@.take(0) =~= Seq::<char>::empty());
    while i < s.len()
        invariant
            i <= s.len(),
            pieces(s@.take(i as int), sep) =~= views(done@).push(cur@),
        decreases s.len() - i,
    {
        let c = s[i];
        let ghost before = views(done@);
        assert(s@.take(i + 1).drop_last() =~= s@.take(i as int));
        assert(s@.take(i + 1).last() == c);
        if c == sep {
            let finished = cur;
            done.push(finished);
            cur = Vec::new();
            assert(views(done@) =~= before.push(finished@));
        } else {
            cur.push(c);
            assert(views(done@) =~= before);
        }
        i = i + 1;
    }
    assert(s@.take(s.len() as int) =~= s@);
    let ghost before = views(done@);
    done.push(cur);
    assert(views(done@) =~= before.push(cur@));
    done
}

/// A copy of a character slice.
pub fn copy_chars(cs: &[char]) -> (res: Vec<char>)
    ensures
        res@ == cs@,
{
    let mut res: Vec<char> = Vec::new();
    let mut i: usize = 0;
    while i < cs.len()
        invariant
            i <= cs.len(),
            res@ == cs@.take(i as int),
        decreases cs.len() - i,
    {
        res.push(cs[i]);
        i = i + 1;
        assert(cs@.take(i as int) =~= cs@.take(i - 1).push(cs@[i - 1]));
    }
    assert(cs@.take(cs.len() as int) =~= cs@);
    res
}

/// The lines of a text, as `str::lines` gives them.
pub fn lines_of(s: &[char]) -> (res: Vec<Vec<char>>)
    ensures
        views(res@) == lines(s@),
{
    let p = split_chars(s, '\n');
    proof {
        lemma_pieces_nonempty(s@, '\n');
    }
    let ghost pv = pieces(s@, '\n');
    let ghost body = pv.drop_last().map_values(|l: Seq<char>| strip_cr(l));
    let n = p.len();
    let mut res: Vec<Vec<char>> = Vec::new();
    let mut i: usize = 0;
    while i + 1 < n
        invariant
            n == p.len(),
            n >= 1,
            views(p@) == pv,
            body == pv.drop_last().map_values(|l: Seq<char>| strip_cr(l)),
            i + 1 <= n,
            views(res@) =~= body.take(i as int),
        decreases n - i,
    {
        let mut line = copy_chars(p[i].as_slice());
        assert(line@ == pv[i as int]);
        if line.len() > 0 && line[line.len() - 1] == '\r' {
            line.pop();
        }
        let ghost before = views(res@);
        res.push(line);
        assert(views(res@) =~= before.push(line@));
        i = i + 1;
        assert(body.take(i as int) =~= body.take(i - 1).push(body[i - 1]));
    }
    assert(body.take(i as int) =~= body);
    if p[n - 1].len() > 0 {
        let last = copy_chars(p[n - 1].as_slice());
        let ghost before = views(res@);
        res.push(last);
        assert(views(res@) =~= before.push(last@));
    }
    res
}

/// The code point of a character.
pub fn code_of(c: char) -> (n: u32)
    ensures
        n == c as int,
{
    c as u32
}

/// The number of bytes of the UTF-8 encoding of `c` (`char::len_utf8`).
pub fn char_width_of(c: char) -> (w: u64)
    ensures
        w == char_width(c),
{
    let n = code_of(c);
    if n < 0x80 {
        1
    } else if n < 0x800 {
        2
    } else if n < 0x10000 {
        3
    } else {
        4
    }
}

/// Whether `c` is Unicode white space.
pub fn is_ws_char(c: char) -> (res: bool)
    ensures
        res == is_ws(c),
{
    let n = code_of(c);
    (9 <= n && n <= 13) || n == 32 || n == 0x85 || n == 0xa0 || n == 0x1680
        || (0x2000 <= n && n <= 0x200a) || n == 0x2028 || n == 0x2029 || n == 0x202f
        || n == 0x205f || n == 0x3000
}

proof fn lemma_trim_start_skip(s: Seq<char>, i: int)
    requires
        0 <= i <= s.len(),
        forall|k: int| 0 <= k < i ==> is_ws(#[trigger] s[k]),
    ensures
        trim_start(s) == trim_start(s.subrange(i, s.len() as int)),
    decreases i,
{
    if i > 0 {
        lemma_trim_start_skip(s.drop_first(), i - 1);
        assert(s.drop_first().subrange(i - 1, s.drop_first().len() as int) =~= s.subrange(
            i,
            s.len() as int,
        ));
    } else {
        assert(s.subrange(0, s.len() as int) =~= s);
    }
}

proof fn lemma_trim_end_skip(s: Seq<char>, j: int)
    requires
        0 <= j <= s.len(),
        forall|k: int| j <= k < s.len() ==> is_ws(#[trigger] s[k]),
    ensures
        trim_end(s) == trim_end(s.take(j)),
    decreases s.len() - j,
{
    if j < s.len() {
        lemma_trim_end_skip(s.drop_last(), j);
        assert(s.drop_last().take(j) =~= s.take(j));
    } else {
        assert(s.take(j) =~= s);
    }
}

/// `s` without leading and trailing white space.
pub fn trim_chars(s: &[char]) -> (res: Vec<char>)
    ensures
        res@ == trim(s@),
{
    let n = s.len();
    let mut i: usize = 0;
    while i < n && is_ws_char(s[i])
        invariant
            i <= n,
            n == s@.len(),
            forall|k: int| 0 <= k < i ==> is_ws(#[trigger] s@[k]),
        decreases n - i,
    {
        i = i + 1;
    }
    proof {
        lemma_trim_start_skip(s@, i as int);
    }
    let ghost rest = s@.subrange(i as int, n as int);
    assert(trim_start(rest) == rest);
    let mut j: usize = n;
    while j > i && is_ws_char(s[j - 1])
        invariant
            i <= j <= n,
            n == s@.len(),
            rest == s@.subrange(i as int, n as int),
            forall|k: int| j - i <= k < rest.len() ==> is_ws(#[trigger] rest[k]),
        decreases j,
    {
        j = j - 1;
    }
    proof {
        lemma_trim_end_skip(rest, j - i);
        assert(rest.take(j - i) =~= s@.subrange(i as int, j as int));
    }
    let mut res: Vec<char> = Vec::new();
    let mut k: usize = i;
    while k < j
        invariant
            i <= k <= j,
            j <= n,
            n == s@.len(),
            res@ == s@.subrange(i as int, k as int),
        decreases j - k,
    {
        res.push(s[k]);
        k = k + 1;
        assert(s@.subrange(i as int, k as int) =~= s@.subrange(i as int, k - 1).push(s@[k - 1]));
    }
    res
}

/// `s` with every occurrence of `c` taken out.
pub fn without_char(s: &[char], c: char) -> (res: Vec<char>)
    ensures
        res@ == without(s@, c),
{
    let mut res: Vec<char> = Vec::new();
    let mut i: usize = 0;
    while i < s.len()
        invariant
            i <= s.len(),
            res@ == without(s@.take(i as int), c),
        decreases s.len() - i,
    {
        assert(s@.take(i + 1).drop_last() =~= s@.take(i as int));
        if s[i] != c {
            res.push(s[i]);
        }
        i = i + 1;
    }
    assert(s@.take(s.len() as int) =~= s@);
    res
}

/// The character of a decimal digit.
fn digit_to_char(d: u64) -> (c: char)
    requires
        d < 10,
    ensures
        c == digit_char(d as nat),
{
    match d {
        0 => '0',
        1 => '1',
        2 => '2',
        3 => '3',
        4 => '4',
        5 => '5',
        6 => '6',
        7 => '7',
        8 => '8',
        _ => '9',
    }
}

/// Appends the decimal notation of `n` to `out`.
pub fn push_decimal(out: &mut String, n: u64)
    ensures
        final(out)@ == old(out)@ + decimal(n as nat),
    decreases n,
{
    if n >= 10 {
        push_decimal(out, n / 10);
    }
    push_char(out, digit_to_char(n % 10));
    assert(decimal(n as nat) == if n < 10 { seq![digit_char(n as nat)] } else {
        decimal((n / 10) as nat).push(digit_char((n % 10) as nat))
    });
}

/// Appends the decimal notation of `n`, padded with zeros to `width`
/// characters.
pub fn push_padded(out: &mut String, n: u64, width: usize)
    ensures
        final(out)@ == old(out)@ + zero_pad(decimal(n as nat), width as nat),
{
    let mut digits = String::new();
    push_decimal(&mut digits, n);
    let ds = chars_of(digits.as_str());
    let mut k: usize = ds.len();
    let ghost start = out@;
    while k < width
        invariant
            ds@ == decimal(n as nat),
            ds@.len() <= k,
            k <= width || k == ds@.len(),
            out@ == start + Seq::new((k - ds@.len()) as nat, |i: int| '0'),
        decreases width - k,
    {
        push_char(out, '0');
        k = k + 1;
        assert(Seq::new((k - ds@.len()) as nat, |i: int| '0') =~= Seq::new(
            (k - 1 - ds@.len()) as nat,
            |i: int| '0',
        ).push('0'));
    }
    push_chars(out, ds.as_slice());
    if ds.len() < width {
        assert(k == width);
    } else {
        assert(Seq::new((k - ds@.len()) as nat, |i: int| '0') =~= Seq::<char>::empty());
    }
}

/// The unsigned number written in `s`, when it is at most `max`
/// (`str::parse` of std for an unsigned integer type whose largest value
/// is `max`).
pub fn parse_unsigned_chars(s: &[char], max: u64) -> (res: Option<u64>)
    ensures
        match parse_unsigned(s@, max as nat) {
            Some(v) => res == Some(v as u64),
            None => res is None,
        },
{
    let ghost b = unsigned_body(s@);
    let start: usize = if s.len() > 0 && s[0] == '+' { 1 } else { 0 };
    assert(b =~= s@.subrange(start as int, s@.len() as int));
    if start >= s.len() {
        return None;
    }
    let mut acc: u64 = 0;
    let mut over = false;
    let mut i: usize = start;
    while i < s.len()
        invariant
            start <= i <= s.len(),
            start < s.len(),
            b == s@.subrange(start as int, s@.len() as int),
            b == unsigned_body(s@),
            all_digits(b.take(i - start)),
            !over ==> acc as nat == digits_value(b.take(i - start)) && acc <= max,
            over ==> digits_value(b.take(i - start)) > max,
        decreases s.len() - i,
    {
        let c = s[i];
        let code = code_of(c);
        if code < 48 || code > 57 {
            assert(b[i - start] == s@[i as int]);
            assert(!is_digit(b[i - start]));
            assert(!all_digits(b));
            return None;
        }
        let d = (code - 48) as u64;
        assert(is_digit(c));
        let ghost prefix = b.take(i - start);
        assert(b.take(i + 1 - start) =~= prefix.push(c));
        assert(b.take(i + 1 - start).drop_last() =~= prefix);
        if !over {
            if acc > max / 10 || (acc == max / 10 && d > max % 10) {
                over = true;
                assert(digits_value(prefix) * 10 + d > max) by (nonlinear_arith)
                    requires
                        acc == digits_value(prefix),
                        acc > max / 10 || (acc == max / 10 && d > max % 10),
                        d < 10,
                ;
            } else {
                assert(acc * 10 + d <= max) by (nonlinear_arith)
                    requires
                        !(acc > max / 10 || (acc == max / 10 && d > max % 10)),
                        d < 10,
                ;
                acc = acc * 10 + d;
            }
        } else {
            assert(digits_value(prefix) * 10 + d > max) by (nonlinear_arith)
                requires
                    digits_value(prefix) > max,
            ;
        }
        i = i + 1;
    }
    assert(b.take(i - start) =~= b);
    if over {
        None
    } else {
        Some(acc)
    }
}

/// Whether `a` comes before `b` or equals it, by code point.
pub fn lex_le_chars(a: &[char], b: &[char]) -> (res: bool)
    ensures
        res == lex_le(a@, b@),
{
    let mut i: usize = 0;
    assert(a@.skip(0) =~= a@);
    assert(b@.skip(0) =~= b@);
    while i < a.len() && i < b.len() && a[i] == b[i]
        invariant
            i <= a.len(),
            i <= b.len(),
            lex_le(a@, b@) == lex_le(a@.skip(i as int), b@.skip(i as int)),
        decreases a.len() - i,
    {
        assert(a@.skip(i as int).drop_first() =~= a@.skip(i + 1));
        assert(b@.skip(i as int).drop_first() =~= b@.skip(i + 1));
        i = i + 1;
    }
    if i == a.len() {
        true
    } else if i == b.len() {
        false
    } else {
        let x = code_of(a[i]);
        let y = code_of(b[i]);
        assert(a@.skip(i as int)[0] == a@[i as int] && b@.skip(i as int)[0] == b@[i as int]);
        x < y
    }
}

/// Appends each line followed by a line feed.
pub fn push_lines(out: &mut String, ls: &Vec<Vec<char>>)
    ensures
        final(out)@ == old(out)@ + unlines(views(ls@)),
{
    let ghost start = out@;
    let mut i: usize = 0;
    while i < ls.len()
        invariant
            i <= ls.len(),
            out@ == start + unlines(views(ls@).take(i as int)),
        decreases ls.len() - i,
    {
        push_chars(out, ls[i].as_slice());
        push_char(out, '\n');
        proof {
            lemma_unlines_push(views(ls@).take(i as int), ls@[i as int]@);
            assert(views(ls@).take(i + 1) =~= views(ls@).take(i as int).push(ls@[i as int]@));
        }
        i = i + 1;
    }
    assert(views(ls@).take(ls.len() as int) =~= views(ls@));
}

/// Whether two character slices are equal.
pub fn eq_chars(a: &[char], b: &[char]) -> (res: bool)
    ensures
        res == (a@ == b@),
{
    if a.len() != b.len() {
        return false;
    }
    let mut i: usize = 0;
    while i < a.len()
        invariant
            i <= a.len(),
            a.len() == b.len(),
            a@.take(i as int) == b@.take(i as int),
        decreases a.len() - i,
    {
        if a[i] != b[i] {
            assert(a@[i as int] != b@[i as int]);
            return false;
        }
        assert(a@.take(i + 1) =~= a@.take(i as int).push(a@[i as int]));
        assert(b@.take(i + 1) =~= b@.take(i as int).push(b@[i as int]));
        i = i + 1;
    }
    assert(a@.take(a.len() as int) =~= a@);
    assert(b@.take(b.len() as int) =~= b@);
    true
}

/// Whether the characters of `a` are those of the string slice `s`.
pub fn eq_str(a: &[char], s: &str) -> (res: bool)
    ensures
        res == (a@ == s@),
{
    let b = chars_of(s);
    eq_chars(a, b.as_slice())
}

/// The index of the first `c` in `s`, if `s` holds one.
pub open spec fn is_first_index(s: Seq<char>, c: char, i: int) -> bool {
    0 <= i < s.len() && s[i] == c && forall|k: int| 0 <= k < i ==> s[k] != c
}

/// A line `key=value` cut at its first `=`, both sides trimmed; `None` for
/// a line without `=`.
pub open spec fn key_value(line: Seq<char>) -> Option<(Seq<char>, Seq<char>)> {
    if exists|i: int| is_first_index(line, '=', i) {
        let i = choose|i: int| is_first_index(line, '=', i);
        Some((trim(line.take(i)), trim(line.skip(i + 1))))
    } else {
        None
    }
}

/// The key and the value of a line `key=value`, both trimmed.
pub fn key_value_of(line: &[char]) -> (res: Option<(Vec<char>, Vec<char>)>)
    ensures
        match key_value(line@) {
            Some((k, v)) => res matches Some((rk, rv)) && rk@ == k && rv@ == v,
            None => res is None,
        },
{
    let mut i: usize = 0;
    while i < line.len() && line[i] != '='
        invariant
            i <= line.len(),
            forall|k: int| 0 <= k < i ==> line@[k] != '=',
        decreases line.len() - i,
    {
        i = i + 1;
    }
    if i == line.len() {
        assert forall|j: int| !is_first_index(line@, '=', j) by {
            if 0 <= j < line@.len() && line@[j] == '=' {
                assert(line@[j] != '=');
            }
        }
        return None;
    }
    assert(is_first_index(line@, '=', i as int));
    proof {
        let j = choose|j: int| is_first_index(line@, '=', j);
        if j < i {
            assert(line@[j] != '=');
        } else if i < j {
            assert(line@[i as int] != '=');
        }
    }
    let mut before: Vec<char> = Vec::new();
    let mut k: usize = 0;
    while k < i
        invariant
            k <= i,
            i < line.len(),
            before@ == line@.take(k as int),
        decreases i - k,
    {
        before.push(line[k]);
        k = k + 1;
        assert(line@.take(k as int) =~= line@.take(k - 1).push(line@[k - 1]));
    }
    let mut after: Vec<char> = Vec::new();
    let mut k: usize = i + 1;
    while k < line.len()
        invariant
            i < k <= line.len(),
            after@ == line@.subrange(i + 1, k as int),
        decreases line.len() - k,
    {
        after.push(line[k]);
        k = k + 1;
        assert(line@.subrange(i + 1, k as int) =~= line@.subrange(i + 1, k - 1).push(
            line@[k - 1],
        ));
    }
    assert(after@ =~= line@.skip(i + 1));
    Some((trim_chars(before.as_slice()), trim_chars(after.as_slice())))
}

/// Appends `b` as `true` or `false`.
pub fn push_bool(out: &mut String, b: bool)
    ensures
        final(out)@ == old(out)@ + bool_text(b),
{
    if b {
        push_str(out, "true");
    } else {
        push_str(out, "false");
    }
}

/// The parts joined, with `sep` between two neighbours.
pub fn join_chars(parts: &Vec<Vec<char>>, sep: char) -> (res: Vec<char>)
    ensures
        res@ == join(views(parts@), sep),
{
    let mut res: Vec<char> = Vec::new();
    let mut i: usize = 0;
    while i < parts.len()
        invariant
            i <= parts.len(),
            res@ == join(views(parts@).take(i as int), sep),
        decreases parts.len() - i,
    {
        let ghost before = res@;
        if i > 0 {
            res.push(sep);
        }
        let mut k: usize = 0;
        let ghost mid = res@;
        while k < parts[i].len()
            invariant
                i < parts.len(),
                k <= parts[i as int]@.len(),
                res@ == mid + parts[i as int]@.take(k as int),
            decreases parts[i as int]@.len() - k,
        {
            res.push(parts[i][k]);
            k = k + 1;
            assert(parts[i as int]@.take(k as int) =~= parts[i as int]@.take(k - 1).push(
                parts[i as int]@[k - 1],
            ));
        }
        assert(parts[i as int]@.take(k as int) =~= parts[i as int]@);
        let ghost t = views(parts@).take(i + 1);
        assert(t.drop_last() =~= views(parts@).take(i as int));
        if i == 0 {
            assert(t =~= seq![parts[0]@]);
            assert(res@ =~= join(t, sep));
        }
        i = i + 1;
    }
    assert(views(parts@).take(parts.len() as int) =~= views(parts@));
    res
}

} // verus!
