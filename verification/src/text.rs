//! Text helpers: decimal rendering of integers, and comma-separated lists
//! with surrounding white space.

use vstd::prelude::*;

verus! {

/// The decimal digit character for `d` (`0 <= d < 10`).
pub open spec fn digit_char(d: int) -> char {
    if d == 0 {
        '0'
    } else if d == 1 {
        '1'
    } else if d == 2 {
        '2'
    } else if d == 3 {
        '3'
    } else if d == 4 {
        '4'
    } else if d == 5 {
        '5'
    } else if d == 6 {
        '6'
    } else if d == 7 {
        '7'
    } else if d == 8 {
        '8'
    } else {
        '9'
    }
}

/// The decimal rendering of `n`, without sign or leading zeros.
pub open spec fn decimal(n: nat) -> Seq<char>
    decreases n,
{
    if n < 10 {
        seq![digit_char(n as int)]
    } else {
        decimal(n / 10).push(digit_char((n % 10) as int))
    }
}

/// A one-character string holding the digit `d`.
fn digit_str(d: u64) -> (r: &'static str)
    requires
        d < 10,
    ensures
        r@ == seq![digit_char(d as int)],
{
    if d == 0 {
        proof { reveal_strlit("0"); }
        "0"
    } else if d == 1 {
        proof { reveal_strlit("1"); }
        "1"
    } else if d == 2 {
        proof { reveal_strlit("2"); }
        "2"
    } else if d == 3 {
        proof { reveal_strlit("3"); }
        "3"
    } else if d == 4 {
        proof { reveal_strlit("4"); }
        "4"
    } else if d == 5 {
        proof { reveal_strlit("5"); }
        "5"
    } else if d == 6 {
        proof { reveal_strlit("6"); }
        "6"
    } else if d == 7 {
        proof { reveal_strlit("7"); }
        "7"
    } else if d == 8 {
        proof { reveal_strlit("8"); }
        "8"
    } else {
        proof { reveal_strlit("9"); }
        "9"
    }
}

/// Every character of a decimal rendering is a digit.
pub proof fn lemma_decimal_digits(n: nat)
    ensures
        decimal(n).len() >= 1,
        forall|i: int|
            0 <= i < decimal(n).len() ==> exists|d: int| 0 <= d < 10 && #[trigger] decimal(n)[i]
                == digit_char(d),
    decreases n,
{
    if n >= 10 {
        lemma_decimal_digits(n / 10);
        let prev = decimal(n / 10);
        assert forall|i: int| 0 <= i < decimal(n).len() implies exists|d: int|
            0 <= d < 10 && #[trigger] decimal(n)[i] == digit_char(d) by {
            if i < prev.len() {
                assert(decimal(n)[i] == prev[i]);
            } else {
                assert(decimal(n)[i] == digit_char((n % 10) as int));
            }
        }
    } else {
        assert(decimal(n)[0] == digit_char(n as int));
    }
}

/// Different numbers have different decimal renderings.
pub proof fn lemma_decimal_injective(a: nat, b: nat)
    requires
        decimal(a) == decimal(b),
    ensures
        a == b,
    decreases a,
{
    lemma_decimal_digits(a / 10);
    lemma_decimal_digits(b / 10);
    if a < 10 && b < 10 {
        assert(decimal(a)[0] == digit_char(a as int));
        assert(decimal(b)[0] == digit_char(b as int));
    } else if a >= 10 && b >= 10 {
        assert(decimal(a).drop_last() =~= decimal(a / 10));
        assert(decimal(b).drop_last() =~= decimal(b / 10));
        lemma_decimal_injective(a / 10, b / 10);
        assert(decimal(a).last() == digit_char((a % 10) as int));
        assert(decimal(b).last() == digit_char((b % 10) as int));
    } else {
        assert(decimal(a).len() != decimal(b).len());
    }
}

/// Where `x + [sep] + r` equals `y + [sep] + t` and neither `x` nor `y` holds
/// `sep`, the pieces are equal: a separator-free head is found again.
pub proof fn lemma_split_at_first_separator(
    x: Seq<char>,
    r: Seq<char>,
    y: Seq<char>,
    t: Seq<char>,
    sep: char,
)
    requires
        !x.contains(sep),
        !y.contains(sep),
        x + seq![sep] + r == y + seq![sep] + t,
    ensures
        x == y,
        r == t,
{
    let u = x + seq![sep] + r;
    let v = y + seq![sep] + t;
    if x.len() < y.len() {
        assert(u[x.len() as int] == sep);
        assert(v[x.len() as int] == y[x.len() as int]);
    } else if y.len() < x.len() {
        assert(v[y.len() as int] == sep);
        assert(u[y.len() as int] == x[y.len() as int]);
    }
    assert(x =~= u.subrange(0, x.len() as int));
    assert(y =~= v.subrange(0, y.len() as int));
    assert(r =~= u.subrange(x.len() + 1int, u.len() as int));
    assert(t =~= v.subrange(y.len() + 1int, v.len() as int));
}

/// Appends the decimal rendering of `n` to `out`.
pub fn push_decimal(out: &mut String, n: u64)
    ensures
        final(out)@ == old(out)@ + decimal(n as nat),
    decreases n,
{
    if n >= 10 {
        push_decimal(out, n / 10);
    }
    let d = digit_str(n % 10);
    out.append(d);
    assert(decimal(n as nat) =~= if n < 10 {
        seq![digit_char(n as int)]
    } else {
        decimal((n / 10) as nat).push(digit_char((n % 10) as int))
    });
}

/// The decimal rendering of `n` as a fresh string.
pub fn to_decimal(n: u64) -> (r: String)
    ensures
        r@ == decimal(n as nat),
{
    let mut out = String::new();
    push_decimal(&mut out, n);
    assert(out@ =~= decimal(n as nat));
    out
}

/// Whether `c` has the Unicode `White_Space` property: the 25 code points
/// U+0009 to U+000D, U+0020, U+0085, U+00A0, U+1680, U+2000 to U+200A,
/// U+2028, U+2029, U+202F, U+205F and U+3000.
pub open spec fn white_space(c: char) -> bool {
    let v = c as u32;
    ||| 0x09 <= v <= 0x0d
    ||| v == 0x20
    ||| v == 0x85
    ||| v == 0xa0
    ||| v == 0x1680
    ||| 0x2000 <= v <= 0x200a
    ||| v == 0x2028
    ||| v == 0x2029
    ||| v == 0x202f
    ||| v == 0x205f
    ||| v == 0x3000
}

/// Trusted: `char::is_whitespace` answers whether `c` has the Unicode
/// `White_Space` property (its documentation), the set `white_space` lists.
pub assume_specification[ char::is_whitespace ](c: char) -> (r: bool)
    ensures
        r == white_space(c),
;

/// `s` without its leading white space.
pub open spec fn trim_start(s: Seq<char>) -> Seq<char>
    decreases s.len(),
{
    if s.len() > 0 && white_space(s[0]) {
        trim_start(s.drop_first())
    } else {
        s
    }
}

/// `s` without its trailing white space.
pub open spec fn trim_end(s: Seq<char>) -> Seq<char>
    decreases s.len(),
{
    if s.len() > 0 && white_space(s.last()) {
        trim_end(s.drop_last())
    } else {
        s
    }
}

/// `s` without leading and trailing white space.
pub open spec fn trimmed(s: Seq<char>) -> Seq<char> {
    trim_end(trim_start(s))
}

/// The pieces of `s` between occurrences of `sep`, in order; `k` separators
/// give `k + 1` pieces, some of them possibly empty.
pub open spec fn split_on(s: Seq<char>, sep: char) -> Seq<Seq<char>>
    decreases s.len(),
{
    if s.len() == 0 {
        seq![Seq::empty()]
    } else {
        let prev = split_on(s.drop_last(), sep);
        if s.last() == sep {
            prev.push(Seq::empty())
        } else {
            prev.update(prev.len() - 1, prev.last().push(s.last()))
        }
    }
}

/// The trimmed pieces that are not empty after trimming, in order.
pub open spec fn nonempty_trimmed(pieces: Seq<Seq<char>>) -> Seq<Seq<char>>
    decreases pieces.len(),
{
    if pieces.len() == 0 {
        Seq::empty()
    } else {
        let prev = nonempty_trimmed(pieces.drop_last());
        let t = trimmed(pieces.last());
        if t.len() > 0 {
            prev.push(t)
        } else {
            prev
        }
    }
}

/// The items of a comma-separated list: the pieces between commas, trimmed,
/// with the empty ones left out.
pub open spec fn list_items(s: Seq<char>) -> Seq<Seq<char>> {
    nonempty_trimmed(split_on(s, ','))
}

/// The views of a sequence of strings.
pub open spec fn string_views(s: Seq<String>) -> Seq<Seq<char>> {
    Seq::new(s.len(), |i: int| s[i]@)
}

/// The views of a sequence of string slices.
pub open spec fn str_views(s: Seq<&str>) -> Seq<Seq<char>> {
    Seq::new(s.len(), |i: int| s[i]@)
}

proof fn lemma_trim_start_shape(s: Seq<char>)
    ensures
        trim_start(s).len() == 0 || !white_space(trim_start(s)[0]),
        exists|k: int|
            0 <= k <= s.len() && trim_start(s) == s.subrange(k, s.len() as int) && forall|m: int|
                0 <= m < k ==> white_space(#[trigger] s[m]),
    decreases s.len(),
{
    if s.len() > 0 && white_space(s[0]) {
        lemma_trim_start_shape(s.drop_first());
        let t = s.drop_first();
        let k = choose|k: int|
            0 <= k <= t.len() && trim_start(t) == t.subrange(k, t.len() as int) && forall|m: int|
                0 <= m < k ==> white_space(#[trigger] t[m]);
        assert(t.subrange(k, t.len() as int) =~= s.subrange(k + 1, s.len() as int));
        assert forall|m: int| 0 <= m < k + 1 implies white_space(#[trigger] s[m]) by {
            if m > 0 {
                assert(s[m] == t[m - 1]);
            }
        }
    } else {
        assert(s.subrange(0, s.len() as int) =~= s);
    }
}

proof fn lemma_trim_end_shape(s: Seq<char>)
    ensures
        trim_end(s).len() == 0 || !white_space(trim_end(s).last()),
        trim_end(s).len() <= s.len(),
        trim_end(s) == s.subrange(0, trim_end(s).len() as int),
        forall|m: int| trim_end(s).len() <= m < s.len() ==> white_space(#[trigger] s[m]),
    decreases s.len(),
{
    if s.len() > 0 && white_space(s.last()) {
        lemma_trim_end_shape(s.drop_last());
        assert forall|m: int| trim_end(s).len() <= m < s.len() implies white_space(
            #[trigger] s[m],
        ) by {
            if m < s.len() - 1 {
                assert(s[m] == s.drop_last()[m]);
            }
        }
        assert(s.drop_last().subrange(0, trim_end(s.drop_last()).len() as int) =~= s.subrange(
            0,
            trim_end(s.drop_last()).len() as int,
        ));
    } else {
        assert(s.subrange(0, s.len() as int) =~= s);
    }
}

/// Trimming twice trims no more than trimming once.
pub proof fn lemma_trimmed_idempotent(s: Seq<char>)
    ensures
        trimmed(trimmed(s)) == trimmed(s),
{
    let y = trim_start(s);
    let z = trim_end(y);
    lemma_trim_start_shape(s);
    lemma_trim_end_shape(y);
    if z.len() > 0 {
        assert(z[0] == y[0]);
    }
    assert(trim_start(z) == z);
    assert(trim_end(z) == z);
}

/// What trimming keeps: a stretch `s[i..j]` of `s` such that everything
/// before `i` and from `j` on is white space, and which, unless empty, starts
/// and ends with a character that is not white space.
pub proof fn lemma_trimmed_is_core(s: Seq<char>)
    ensures
        exists|i: int, j: int|
            {
                &&& 0 <= i <= j <= s.len()
                &&& trimmed(s) == s.subrange(i, j)
                &&& forall|m: int| 0 <= m < i ==> white_space(#[trigger] s[m])
                &&& forall|m: int| j <= m < s.len() ==> white_space(#[trigger] s[m])
                &&& i < j ==> !white_space(s[i]) && !white_space(s[j - 1])
            },
{
    let y = trim_start(s);
    lemma_trim_start_shape(s);
    lemma_trim_end_shape(y);
    let k = choose|k: int|
        0 <= k <= s.len() && y == s.subrange(k, s.len() as int) && forall|m: int|
            0 <= m < k ==> white_space(#[trigger] s[m]);
    let z = trim_end(y);
    let j = k + z.len();
    assert(trimmed(s) =~= s.subrange(k, j));
    assert forall|m: int| j <= m < s.len() implies white_space(#[trigger] s[m]) by {
        assert(s[m] == y[m - k]);
    }
    if k < j {
        assert(s[k] == y[0]);
        assert(z[0] == y[0]);
        assert(s[j - 1] == z.last());
    }
}

/// Splitting never gives fewer than one piece.
proof fn lemma_split_on_nonempty(s: Seq<char>, sep: char)
    ensures
        split_on(s, sep).len() >= 1,
    decreases s.len(),
{
    if s.len() > 0 {
        lemma_split_on_nonempty(s.drop_last(), sep);
    }
}

/// A text without the separator is a single piece: itself.
pub proof fn lemma_split_on_without_separator(s: Seq<char>, sep: char)
    requires
        !s.contains(sep),
    ensures
        split_on(s, sep) == seq![s],
    decreases s.len(),
{
    if s.len() > 0 {
        assert(!s.drop_last().contains(sep)) by {
            if s.drop_last().contains(sep) {
                let k = choose|k: int| 0 <= k < s.drop_last().len() && s.drop_last()[k] == sep;
                assert(s[k] == sep);
            }
        }
        lemma_split_on_without_separator(s.drop_last(), sep);
        assert(s[s.len() - 1] != sep);
        assert(s.drop_last().push(s.last()) =~= s);
    } else {
        assert(s =~= Seq::<char>::empty());
    }
}

/// Splitting `a`, a separator, then `b` gives the pieces of `a` followed by
/// the pieces of `b`.
pub proof fn lemma_split_on_concat(a: Seq<char>, b: Seq<char>, sep: char)
    ensures
        split_on(a + seq![sep] + b, sep) == split_on(a, sep) + split_on(b, sep),
    decreases b.len(),
{
    let s = a + seq![sep] + b;
    lemma_split_on_nonempty(a, sep);
    if b.len() == 0 {
        assert(s.drop_last() =~= a);
        assert(s.last() == sep);
        assert(split_on(b, sep) == seq![Seq::<char>::empty()]);
        assert(split_on(a, sep).push(Seq::<char>::empty()) =~= split_on(a, sep) + seq![
            Seq::<char>::empty(),
        ]);
    } else {
        let b0 = b.drop_last();
        lemma_split_on_concat(a, b0, sep);
        lemma_split_on_nonempty(b0, sep);
        assert(s.drop_last() =~= a + seq![sep] + b0);
        assert(s.last() == b.last());
        let pa = split_on(a, sep);
        let pb = split_on(b0, sep);
        if b.last() == sep {
            assert((pa + pb).push(Seq::<char>::empty()) =~= pa + pb.push(Seq::<char>::empty()));
        } else {
            let prev = pa + pb;
            assert(prev.last() == pb.last());
            assert(prev.update(prev.len() - 1, prev.last().push(b.last())) =~= pa + pb.update(
                pb.len() - 1,
                pb.last().push(b.last()),
            ));
        }
    }
}

/// Keeping the trimmed non-empty pieces of two lists of pieces in a row keeps
/// those of the first, then those of the second.
proof fn lemma_nonempty_trimmed_concat(x: Seq<Seq<char>>, y: Seq<Seq<char>>)
    ensures
        nonempty_trimmed(x + y) == nonempty_trimmed(x) + nonempty_trimmed(y),
    decreases y.len(),
{
    if y.len() == 0 {
        assert(x + y =~= x);
        assert(nonempty_trimmed(x) + nonempty_trimmed(y) =~= nonempty_trimmed(x));
    } else {
        lemma_nonempty_trimmed_concat(x, y.drop_last());
        assert((x + y).drop_last() =~= x + y.drop_last());
        assert((x + y).last() == y.last());
        let nx = nonempty_trimmed(x);
        let ny = nonempty_trimmed(y.drop_last());
        assert((nx + ny).push(trimmed(y.last())) =~= nx + ny.push(trimmed(y.last())));
    }
}

/// A list without a comma is one item, the text trimmed, unless that is
/// empty, in which case the list has no item.
pub proof fn lemma_list_items_without_comma(s: Seq<char>)
    requires
        !s.contains(','),
    ensures
        trimmed(s).len() > 0 ==> list_items(s) == seq![trimmed(s)],
        trimmed(s).len() == 0 ==> list_items(s).len() == 0,
{
    lemma_split_on_without_separator(s, ',');
    let p = seq![s];
    assert(p.drop_last() =~= Seq::<Seq<char>>::empty());
    assert(p.last() == s);
    assert(nonempty_trimmed(Seq::<Seq<char>>::empty()) == Seq::<Seq<char>>::empty());
    assert(list_items(s) == nonempty_trimmed(p));
    assert(nonempty_trimmed(p) == if trimmed(s).len() > 0 {
        Seq::<Seq<char>>::empty().push(trimmed(s))
    } else {
        Seq::<Seq<char>>::empty()
    });
    if trimmed(s).len() > 0 {
        assert(Seq::<Seq<char>>::empty().push(trimmed(s)) =~= seq![trimmed(s)]);
    }
}

/// The items of `a`, a comma, then `b` are the items of `a` followed by the
/// items of `b`.
pub proof fn lemma_list_items_concat(a: Seq<char>, b: Seq<char>)
    ensures
        list_items(a + seq![','] + b) == list_items(a) + list_items(b),
{
    lemma_split_on_concat(a, b, ',');
    lemma_nonempty_trimmed_concat(split_on(a, ','), split_on(b, ','));
}

/// The items of a comma-separated list are never empty and carry no
/// surrounding white space.
pub proof fn lemma_list_items_clean(s: Seq<char>)
    ensures
        forall|i: int|
            0 <= i < list_items(s).len() ==> #[trigger] list_items(s)[i].len() > 0 && trimmed(
                list_items(s)[i],
            ) == list_items(s)[i],
{
    lemma_nonempty_trimmed_clean(split_on(s, ','));
}

proof fn lemma_nonempty_trimmed_clean(pieces: Seq<Seq<char>>)
    ensures
        forall|i: int|
            0 <= i < nonempty_trimmed(pieces).len() ==> #[trigger] nonempty_trimmed(pieces)[i].len()
                > 0 && trimmed(nonempty_trimmed(pieces)[i]) == nonempty_trimmed(pieces)[i],
    decreases pieces.len(),
{
    if pieces.len() > 0 {
        let prev = nonempty_trimmed(pieces.drop_last());
        lemma_nonempty_trimmed_clean(pieces.drop_last());
        lemma_trimmed_idempotent(pieces.last());
        let cur = nonempty_trimmed(pieces);
        assert forall|i: int| 0 <= i < cur.len() implies #[trigger] cur[i].len() > 0 && trimmed(
            cur[i],
        ) == cur[i] by {
            if i < prev.len() {
                assert(cur[i] == prev[i]);
            }
        }
    }
}

/// `s` without leading and trailing white space.
pub fn trim_white(s: &str) -> (r: &str)
    ensures
        r@ == trimmed(s@),
{
    let n: usize = s.unicode_len();
    let mut i: usize = 0;
    assert(s@.subrange(0, n as int) =~= s@);
    while i < n && s.get_char(i).is_whitespace()
        invariant
            n == s@.len(),
            i <= n,
            trim_start(s@) == trim_start(s@.subrange(i as int, n as int)),
        decreases n - i,
    {
        assert(s@.subrange(i as int, n as int).drop_first() =~= s@.subrange(i + 1, n as int));
        i = i + 1;
    }
    assert(trim_start(s@) == s@.subrange(i as int, n as int)) by {
        if i == n {
            assert(s@.subrange(i as int, n as int).len() == 0);
        }
    }
    let mut j: usize = n;
    while j > i && s.get_char(j - 1).is_whitespace()
        invariant
            n == s@.len(),
            i <= j <= n,
            trimmed(s@) == trim_end(s@.subrange(i as int, j as int)),
        decreases j - i,
    {
        assert(s@.subrange(i as int, j as int).drop_last() =~= s@.subrange(i as int, j - 1));
        j = j - 1;
    }
    s.substring_char(i, j)
}

/// The pieces of `s` between occurrences of `sep`.
pub fn split_on_char(s: &str, sep: char) -> (r: Vec<&str>)
    ensures
        str_views(r@) == split_on(s@, sep),
{
    let n: usize = s.unicode_len();
    let mut pieces: Vec<&str> = Vec::new();
    let mut start: usize = 0;
    let mut i: usize = 0;
    assert(s@.take(0) =~= Seq::<char>::empty());
    assert(str_views(pieces@).push(s@.subrange(0, 0)) =~= seq![Seq::<char>::empty()]);
    while i < n
        invariant
            n == s@.len(),
            start <= i <= n,
            split_on(s@.take(i as int), sep) == str_views(pieces@).push(
                s@.subrange(start as int, i as int),
            ),
        decreases n - i,
    {
        let c = s.get_char(i);
        assert(s@.take(i + 1).drop_last() =~= s@.take(i as int));
        assert(s@.take(i + 1).last() == c);
        if c == sep {
            let piece = s.substring_char(start, i);
            let ghost before = str_views(pieces@);
            pieces.push(piece);
            assert(str_views(pieces@) =~= before.push(piece@));
            start = i + 1;
            assert(s@.subrange(start as int, i + 1) =~= Seq::<char>::empty());
        } else {
            assert(s@.subrange(start as int, i + 1) =~= s@.subrange(start as int, i as int).push(
                c,
            ));
        }
        i = i + 1;
    }
    let last = s.substring_char(start, n);
    let ghost before = str_views(pieces@);
    pieces.push(last);
    assert(str_views(pieces@) =~= before.push(last@));
    assert(s@.take(n as int) =~= s@);
    pieces
}

/// The items of the comma-separated list `s`: the pieces between commas,
/// trimmed of white space, with the empty ones left out.
pub fn comma_list_items(s: &str) -> (r: Vec<String>)
    ensures
        string_views(r@) == list_items(s@),
{
    let pieces = split_on_char(s, ',');
    let ghost p = str_views(pieces@);
    let mut items: Vec<String> = Vec::new();
    let mut i: usize = 0;
    while i < pieces.len()
        invariant
            i <= pieces.len(),
            p == str_views(pieces@),
            string_views(items@) == nonempty_trimmed(p.take(i as int)),
        decreases pieces.len() - i,
    {
        assert(p.take(i + 1).drop_last() =~= p.take(i as int));
        assert(p.take(i + 1).last() == pieces@[i as int]@);
        let t = trim_white(pieces[i]);
        if t.unicode_len() > 0 {
            let ghost before = string_views(items@);
            let item = String::from_str(t);
            items.push(item);
            assert(string_views(items@) =~= before.push(t@));
        }
        i = i + 1;
    }
    assert(p.take(i as int) =~= p);
    items
}

} // verus!
