use vstd::prelude::*;

use crate::field::MoveError;

verus! {

/// A square of the board: both components lie in 0..3.
pub struct Coordinates {
    row: usize,
    column: usize,
}

/// `c` has the Unicode White_Space property.
pub open spec fn is_space(c: char) -> bool {
    ||| ('\u{9}' <= c && c <= '\u{d}')
    ||| c == ' '
    ||| c == '\u{85}'
    ||| c == '\u{a0}'
    ||| c == '\u{1680}'
    ||| ('\u{2000}' <= c && c <= '\u{200a}')
    ||| c == '\u{2028}'
    ||| c == '\u{2029}'
    ||| c == '\u{202f}'
    ||| c == '\u{205f}'
    ||| c == '\u{3000}'
}

/// `c` is an ASCII decimal digit.
pub open spec fn is_digit(c: char) -> bool {
    '0' <= c && c <= '9'
}

/// The value of the decimal digit `c`.
pub open spec fn digit_value(c: char) -> int {
    c as int - '0' as int
}

/// The pieces of `s` between commas, in order (one piece when `s` holds no
/// comma, and an empty piece on each side of a comma at either end).
pub open spec fn pieces(s: Seq<char>) -> Seq<Seq<char>>
    decreases s.len(),
{
    if s.len() == 0 {
        seq![Seq::<char>::empty()]
    } else if s.last() == ',' {
        pieces(s.drop_last()).push(Seq::<char>::empty())
    } else {
        let p = pieces(s.drop_last());
        p.update(p.len() - 1, p.last().push(s.last()))
    }
}

/// `s` without its leading white space.
pub open spec fn trim_start(s: Seq<char>) -> Seq<char>
    decreases s.len(),
{
    if s.len() > 0 && is_space(s[0]) {
        trim_start(s.drop_first())
    } else {
        s
    }
}

/// `s` without its trailing white space.
pub open spec fn trim_end(s: Seq<char>) -> Seq<char>
    decreases s.len(),
{
    if s.len() > 0 && is_space(s.last()) {
        trim_end(s.drop_last())
    } else {
        s
    }
}

/// `s` without leading or trailing white space.
pub open spec fn trim(s: Seq<char>) -> Seq<char> {
    trim_end(trim_start(s))
}

/// The number written by the decimal digits `d`.
pub open spec fn decimal(d: Seq<char>) -> nat
    decreases d.len(),
{
    if d.len() == 0 {
        0
    } else {
        (10 * decimal(d.drop_last()) + digit_value(d.last())) as nat
    }
}

/// `t` is an optional `+` and then one or more decimal digits (the form of
/// an unsigned integer), and gives the digits.
pub open spec fn unsigned_digits(t: Seq<char>) -> Seq<char> {
    if t.len() > 0 && t[0] == '+' {
        t.drop_first()
    } else {
        t
    }
}

/// The board index that the piece `p` names once trimmed: an unsigned
/// integer below 3.
pub open spec fn index_of(p: Seq<char>) -> Option<nat> {
    let d = unsigned_digits(trim(p));
    if d.len() > 0 && (forall|i: int| 0 <= i < d.len() ==> is_digit(#[trigger] d[i]))
        && decimal(d) < 3 {
        Some(decimal(d))
    } else {
        None
    }
}

/// The board indices named by the pieces `ps`, in order; pieces that name
/// none are passed over.
pub open spec fn indices(ps: Seq<Seq<char>>) -> Seq<nat>
    decreases ps.len(),
{
    if ps.len() == 0 {
        Seq::empty()
    } else {
        match index_of(ps.last()) {
            Some(v) => indices(ps.drop_last()).push(v),
            None => indices(ps.drop_last()),
        }
    }
}

/// The square that the text `s` names: the first two board indices among
/// its comma-separated pieces, as row and column; none where fewer than two
/// pieces name an index.
pub open spec fn parse_square(s: Seq<char>) -> Option<(nat, nat)> {
    let v = indices(pieces(s));
    if v.len() >= 2 {
        Some((v[0], v[1]))
    } else {
        None
    }
}

/// The decimal digit for `n`, for `n` below 3.
pub open spec fn digit_char(n: nat) -> char {
    if n == 0 {
        '0'
    } else if n == 1 {
        '1'
    } else {
        '2'
    }
}

/// Every character of `w` is white space.
pub open spec fn all_space(w: Seq<char>) -> bool {
    forall|i: int| 0 <= i < w.len() ==> is_space(#[trigger] w[i])
}

proof fn lemma_pieces_not_empty(s: Seq<char>)
    ensures
        pieces(s).len() >= 1,
    decreases s.len(),
{
    if s.len() > 0 {
        lemma_pieces_not_empty(s.drop_last());
    }
}

/// Cutting at a comma splits the pieces between its two sides.
proof fn lemma_pieces_at_comma(a: Seq<char>, b: Seq<char>)
    ensures
        pieces(a + seq![','] + b) == pieces(a) + pieces(b),
    decreases b.len(),
{
    let s = a + seq![','] + b;
    if b.len() == 0 {
        assert(s.drop_last() =~= a);
        assert(pieces(a).push(Seq::<char>::empty()) =~= pieces(a) + pieces(b));
    } else {
        let b1 = b.drop_last();
        assert(s.drop_last() =~= a + seq![','] + b1);
        lemma_pieces_at_comma(a, b1);
        lemma_pieces_not_empty(b1);
        if b.last() == ',' {
            assert((pieces(a) + pieces(b1)).push(Seq::<char>::empty()) =~= pieces(a) + pieces(b));
        } else {
            let p = pieces(a) + pieces(b1);
            let q = pieces(b1);
            assert(p.update(p.len() - 1, p.last().push(b.last())) =~= pieces(a) + q.update(
                q.len() - 1,
                q.last().push(b.last()),
            ));
        }
    }
}

/// Text without a comma is a single piece.
proof fn lemma_pieces_no_comma(s: Seq<char>)
    requires
        forall|i: int| 0 <= i < s.len() ==> s[i] != ',',
    ensures
        pieces(s) == seq![s],
    decreases s.len(),
{
    if s.len() > 0 {
        lemma_pieces_no_comma(s.drop_last());
        assert(s.drop_last().push(s.last()) =~= s);
        assert(seq![s.drop_last()].update(0, s.drop_last().push(s.last())) =~= seq![s]);
    } else {
        assert(s =~= Seq::<char>::empty());
    }
}

proof fn lemma_trim_start_space(w: Seq<char>, x: Seq<char>)
    requires
        all_space(w),
    ensures
        trim_start(w + x) == trim_start(x),
    decreases w.len(),
{
    if w.len() > 0 {
        assert((w + x)[0] == w[0]);
        assert((w + x).drop_first() =~= w.drop_first() + x);
        lemma_trim_start_space(w.drop_first(), x);
    } else {
        assert(w + x =~= x);
    }
}

proof fn lemma_trim_end_space(x: Seq<char>, w: Seq<char>)
    requires
        all_space(w),
    ensures
        trim_end(x + w) == trim_end(x),
    decreases w.len(),
{
    if w.len() > 0 {
        assert((x + w).last() == w.last());
        assert((x + w).drop_last() =~= x + w.drop_last());
        lemma_trim_end_space(x, w.drop_last());
    } else {
        assert(x + w =~= x);
    }
}

/// A digit below 3 with white space on either side names that digit.
proof fn lemma_index_of_padded_digit(n: nat, w1: Seq<char>, w2: Seq<char>)
    requires
        n < 3,
        all_space(w1),
        all_space(w2),
    ensures
        index_of(w1 + seq![digit_char(n)] + w2) == Some(n),
{
    let d = seq![digit_char(n)];
    assert(w1 + d + w2 =~= w1 + (d + w2));
    lemma_trim_start_space(w1, d + w2);
    assert(trim_start(d + w2) == d + w2);
    lemma_trim_end_space(d, w2);
    assert(d.drop_last() =~= Seq::<char>::empty());
    assert(trim_end(d) == d);
    assert(unsigned_digits(d) == d);
    assert(decimal(d.drop_last()) == 0);
    assert(digit_value(digit_char(n)) == n);
    assert(decimal(d) == n);
}

proof fn lemma_indices_append(ps: Seq<Seq<char>>, qs: Seq<Seq<char>>)
    ensures
        indices(ps + qs) == indices(ps) + indices(qs),
    decreases qs.len(),
{
    if qs.len() == 0 {
        assert(ps + qs =~= ps);
        assert(indices(ps) + indices(qs) =~= indices(ps));
    } else {
        assert((ps + qs).drop_last() =~= ps + qs.drop_last());
        lemma_indices_append(ps, qs.drop_last());
        match index_of(qs.last()) {
            Some(v) => {
                assert((indices(ps) + indices(qs.drop_last())).push(v) =~= indices(ps)
                    + indices(qs.drop_last()).push(v));
            },
            None => {},
        }
    }
}

/// For every square, the text of its row, a comma and its column, with any
/// white space around either number, reads back as that square.
pub proof fn lemma_square_text_round_trip(
    row: nat,
    column: nat,
    w1: Seq<char>,
    w2: Seq<char>,
    w3: Seq<char>,
    w4: Seq<char>,
)
    requires
        row < 3,
        column < 3,
        all_space(w1),
        all_space(w2),
        all_space(w3),
        all_space(w4),
    ensures
        parse_square(
            w1 + seq![digit_char(row)] + w2 + seq![','] + w3 + seq![digit_char(column)] + w4,
        ) == Some((row, column)),
{
    let a = w1 + seq![digit_char(row)] + w2;
    let b = w3 + seq![digit_char(column)] + w4;
    assert(w1 + seq![digit_char(row)] + w2 + seq![','] + w3 + seq![digit_char(column)] + w4
        =~= a + seq![','] + b);
    lemma_pieces_at_comma(a, b);
    lemma_pieces_no_comma(a);
    lemma_pieces_no_comma(b);
    lemma_index_of_padded_digit(row, w1, w2);
    lemma_index_of_padded_digit(column, w3, w4);
    let ps = seq![a, b];
    assert(pieces(a) + pieces(b) =~= ps);
    assert(ps.drop_last() =~= seq![a]);
    assert(seq![a].drop_last() =~= Seq::<Seq<char>>::empty());
    assert(seq![a].last() == a);
    assert(index_of(a) == Some(row));
    assert(indices(Seq::<Seq<char>>::empty()) == Seq::<nat>::empty());
    assert(Seq::<nat>::empty().push(row) =~= seq![row]);
    assert(indices(seq![a]) == seq![row]);
    assert(indices(ps) == seq![row].push(column));
}

/// Once text names a square, whatever follows after a further comma is
/// ignored.
pub proof fn lemma_trailing_pieces_ignored(s: Seq<char>, t: Seq<char>)
    requires
        parse_square(s) is Some,
    ensures
        parse_square(s + seq![','] + t) == parse_square(s),
{
    lemma_pieces_at_comma(s, t);
    lemma_indices_append(pieces(s), pieces(t));
}

/// Whether `c` is white space.
fn char_is_space(c: char) -> (r: bool)
    ensures
        r == is_space(c),
{
    ('\u{9}' <= c && c <= '\u{d}') || c == ' ' || c == '\u{85}' || c == '\u{a0}' || c
        == '\u{1680}' || ('\u{2000}' <= c && c <= '\u{200a}') || c == '\u{2028}' || c
        == '\u{2029}' || c == '\u{202f}' || c == '\u{205f}' || c == '\u{3000}'
}

/// The board index that `chars[lo..hi]` names once trimmed, if any.
fn piece_index(chars: &Vec<char>, lo: usize, hi: usize) -> (r: Option<usize>)
    requires
        lo <= hi <= chars@.len(),
    ensures
        match index_of(chars@.subrange(lo as int, hi as int)) {
            Some(v) => r == Some(v as usize) && v < 3,
            None => r is None,
        },
{
    let ghost piece = chars@.subrange(lo as int, hi as int);
    let mut a: usize = lo;
    while a < hi && char_is_space(chars[a])
        invariant
            lo <= a <= hi <= chars@.len(),
            trim_start(piece) == trim_start(chars@.subrange(a as int, hi as int)),
        decreases hi - a,
    {
        assert(chars@.subrange(a as int, hi as int).drop_first() =~= chars@.subrange(
            a + 1,
            hi as int,
        ));
        a += 1;
    }
    let ghost front = chars@.subrange(a as int, hi as int);
    assert(trim_start(front) == front);
    let mut b: usize = hi;
    while b > a && char_is_space(chars[b - 1])
        invariant
            a <= b <= hi <= chars@.len(),
            trim_end(front) == trim_end(chars@.subrange(a as int, b as int)),
        decreases b - a,
    {
        assert(chars@.subrange(a as int, b as int).drop_last() =~= chars@.subrange(
            a as int,
            b - 1,
        ));
        b -= 1;
    }
    let ghost t = chars@.subrange(a as int, b as int);
    assert(trim_end(t) == t);
    assert(trim(piece) == t);
    let p: usize = if b > a && chars[a] == '+' {
        a + 1
    } else {
        a
    };
    let ghost d = chars@.subrange(p as int, b as int);
    assert(unsigned_digits(t) =~= d);
    if p == b {
        return None;
    }
    let mut k: usize = p;
    let mut value: usize = 0;
    let mut large = false;
    while k < b
        invariant
            p <= k <= b <= chars@.len(),
            d == chars@.subrange(p as int, b as int),
            d == unsigned_digits(trim(piece)),
            piece == chars@.subrange(lo as int, hi as int),
            forall|i: int| p <= i < k ==> is_digit(chars@[i]),
            large ==> decimal(chars@.subrange(p as int, k as int)) >= 3,
            !large ==> value == decimal(chars@.subrange(p as int, k as int)) && value < 3,
        decreases b - k,
    {
        let c = chars[k];
        if !('0' <= c && c <= '9') {
            assert(!is_digit(d[k - p]));
            return None;
        }
        assert(chars@.subrange(p as int, k + 1).drop_last() =~= chars@.subrange(
            p as int,
            k as int,
        ));
        if !large {
            let next = 10 * value + (c as u32 - '0' as u32) as usize;
            if next >= 3 {
                large = true;
            } else {
                value = next;
            }
        }
        k += 1;
    }
    assert(forall|i: int| 0 <= i < d.len() ==> #[trigger] d[i] == chars@[p + i]);
    assert(d =~= chars@.subrange(p as int, k as int));
    if large {
        None
    } else {
        Some(value)
    }
}

/// The characters of `s`, in order.
fn chars_of(s: &str) -> (r: Vec<char>)
    ensures
        r@ == s@,
{
    let n = s.unicode_len();
    let mut out: Vec<char> = Vec::new();
    let mut i: usize = 0;
    while i < n
        invariant
            n == s@.len(),
            i <= n,
            out@ == s@.take(i as int),
        decreases n - i,
    {
        out.push(s.get_char(i));
        assert(out@ =~= s@.take(i + 1));
        i += 1;
    }
    assert(out@ =~= s@);
    out
}

impl Coordinates {
    /// Both components lie in 0..3.
    #[verifier::type_invariant]
    spec fn in_range(self) -> bool {
        self.row < 3 && self.column < 3
    }

    /// The row index.
    pub closed spec fn row(&self) -> nat {
        self.row as nat
    }

    /// The column index.
    pub closed spec fn column(&self) -> nat {
        self.column as nat
    }

    /// Reads a square from text: the text is cut at each comma, each piece
    /// is trimmed of white space, pieces that are not an unsigned integer
    /// below 3 are passed over, and the first two that remain are the row and
    /// the column. Any further pieces are ignored.
    pub fn from_str(s: &str) -> (r: Result<Coordinates, MoveError>)
        ensures
            match parse_square(s@) {
                Some((row, column)) => r matches Ok(c) && c.row() == row && c.column() == column,
                None => r == Err::<Coordinates, MoveError>(MoveError::InvalidInput),
            },
    {
        let chars = chars_of(s);
        let n = chars.len();
        let mut found: Vec<usize> = Vec::new();
        let mut start: usize = 0;
        let mut i: usize = 0;
        let ghost mut done: Seq<Seq<char>> = Seq::empty();
        assert(chars@.take(0) =~= Seq::<char>::empty());
        assert(done.push(chars@.subrange(0, 0)) =~= seq![Seq::<char>::empty()]);
        while i < n
            invariant
                n == chars@.len(),
                start <= i <= n,
                pieces(chars@.take(i as int)) == done.push(chars@.subrange(start as int, i as int)),
                found@.len() == indices(done).len(),
                forall|k: int| 0 <= k < found@.len() ==> found@[k] == indices(done)[k] && found@[k] < 3,
            decreases n - i,
        {
            let ghost cur = chars@.subrange(start as int, i as int);
            assert(chars@.take(i + 1).drop_last() =~= chars@.take(i as int));
            if chars[i] == ',' {
                let v = piece_index(&chars, start, i);
                assert(done.push(cur).drop_last() =~= done);
                if let Some(x) = v {
                    found.push(x);
                }
                proof {
                    done = done.push(cur);
                }
                start = i + 1;
                assert(chars@.subrange(start as int, i + 1) =~= Seq::<char>::empty());
            } else {
                assert(cur.push(chars@[i as int]) =~= chars@.subrange(start as int, i + 1));
                assert(done.push(cur).update(done.len() as int, cur.push(chars@[i as int]))
                    =~= done.push(chars@.subrange(start as int, i + 1)));
            }
            i += 1;
        }
        let ghost cur = chars@.subrange(start as int, n as int);
        assert(chars@.take(n as int) =~= chars@);
        assert(done.push(cur).drop_last() =~= done);
        let v = piece_index(&chars, start, n);
        if let Some(x) = v {
            found.push(x);
        }
        assert(found@.len() == indices(pieces(s@)).len());
        if found.len() >= 2 {
            Ok(Coordinates { row: found[0], column: found[1] })
        } else {
            Err(MoveError::InvalidInput)
        }
    }

    /// The row index, below 3.
    pub fn get_row(&self) -> (r: usize)
        ensures
            r == self.row(),
            r < 3,
    {
        proof {
            use_type_invariant(self);
        }
        self.row
    }

    /// The column index, below 3.
    pub fn get_column(&self) -> (r: usize)
        ensures
            r == self.column(),
            r < 3,
    {
        proof {
            use_type_invariant(self);
        }
        self.column
    }
}

} // verus!
