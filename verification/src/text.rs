//! Text helpers: decimal numbers, splitting, lines, trimming and joining.
//!
//! Every function here works on the characters of a string (its view, a
//! `Seq<char>`), and each one's contract says exactly which characters it
//! returns.

use vstd::prelude::*;

verus! {

broadcast use vstd::string::group_string_axioms;

/// The views of a sequence of strings.
pub open spec fn views(v: Seq<String>) -> Seq<Seq<char>> {
    v.map_values(|s: String| s@)
}

/// The views of a sequence of string slices.
pub open spec fn str_views(v: Seq<&str>) -> Seq<Seq<char>> {
    v.map_values(|s: &str| s@)
}

/// The views of a sequence of character vectors.
pub open spec fn char_views(v: Seq<Vec<char>>) -> Seq<Seq<char>> {
    v.map_values(|c: Vec<char>| c@)
}

/// Appends one character to a string (`String::push`).
#[verifier::external_body]
pub(crate) fn push_char(s: &mut String, c: char)
    ensures
        final(s)@ == old(s)@.push(c),
{
    s.push(c);
}

/// The characters of a string, in order.
pub fn chars_of(s: &str) -> (v: Vec<char>)
    ensures
        v@ == s@,
{
    let mut v: Vec<char> = Vec::new();
    for c in it: s.chars()
        invariant
            v@ == it.seq().take(it.index()),
    {
        v.push(c);
    }
    v
}

/// The string made of `chars[lo..hi]`.
pub fn string_from_range(chars: &Vec<char>, lo: usize, hi: usize) -> (s: String)
    requires
        lo <= hi <= chars@.len(),
    ensures
        s@ == chars@.subrange(lo as int, hi as int),
{
    let mut s = String::new();
    let mut i: usize = lo;
    while i < hi
        invariant
            lo <= i <= hi <= chars@.len(),
            s@ == chars@.subrange(lo as int, i as int),
        decreases hi - i,
    {
        push_char(&mut s, chars[i]);
        assert(chars@.subrange(lo as int, i + 1) == chars@.subrange(lo as int, i as int).push(
            chars@[i as int],
        ));
        i = i + 1;
    }
    s
}

/// The string made of all of `chars`.
pub fn string_from_chars(chars: &Vec<char>) -> (s: String)
    ensures
        s@ == chars@,
{
    let s = string_from_range(chars, 0, chars.len());
    assert(chars@.subrange(0, chars@.len() as int) == chars@);
    s
}

// ---------------------------------------------------------------------------
// Decimal numbers
// ---------------------------------------------------------------------------

/// The character of a decimal digit.
pub open spec fn digit_char(d: nat) -> char {
    if d == 0 {
        '0'
    } else if d == 1 {
        '1'
    } else if d == 2 {
        '2'
    } else if d == 3 {
        '3'
    } else if d == 4 {
        '4'
    } else if d == 5 {
        '5'
    } else if d == 6 {
        '6'
    } else if d == 7 {
        '7'
    } else if d == 8 {
        '8'
    } else {
        '9'
    }
}

/// The decimal notation of `n`, without sign and without leading zeros.
pub open spec fn decimal(n: nat) -> Seq<char>
    decreases n,
{
    if n < 10 {
        seq![digit_char(n)]
    } else {
        decimal(n / 10).push(digit_char(n % 10))
    }
}

fn digit(d: u64) -> (c: char)
    requires
        d < 10,
    ensures
        c == digit_char(d as nat),
{
    if d == 0 {
        '0'
    } else if d == 1 {
        '1'
    } else if d == 2 {
        '2'
    } else if d == 3 {
        '3'
    } else if d == 4 {
        '4'
    } else if d == 5 {
        '5'
    } else if d == 6 {
        '6'
    } else if d == 7 {
        '7'
    } else if d == 8 {
        '8'
    } else {
        '9'
    }
}

/// Appends the decimal notation of `n`.
pub fn push_decimal(s: &mut String, n: u64)
    ensures
        final(s)@ == old(s)@ + decimal(n as nat),
    decreases n,
{
    if n < 10 {
        push_char(s, digit(n));
    } else {
        push_decimal(s, n / 10);
        push_char(s, digit(n % 10));
    }
}

/// The decimal notation of `n`, as `n.to_string()` writes it.
pub fn decimal_string(n: u64) -> (s: String)
    ensures
        s@ == decimal(n as nat),
{
    let mut s = String::new();
    push_decimal(&mut s, n);
    s
}


// ---------------------------------------------------------------------------
// Splitting at a separator
// ---------------------------------------------------------------------------

/// The pieces of `s` between occurrences of `sep`, as `str::split` gives them
/// for a character pattern: one more piece than there are separators.
pub open spec fn split_on(s: Seq<char>, sep: char) -> Seq<Seq<char>>
    decreases s.len(),
{
    if s.len() == 0 {
        seq![Seq::<char>::empty()]
    } else {
        let r = split_on(s.drop_last(), sep);
        if s.last() == sep {
            r.push(Seq::<char>::empty())
        } else {
            r.update(r.len() - 1, r.last().push(s.last()))
        }
    }
}

/// There is always at least one piece.
pub proof fn lemma_split_on_nonempty(s: Seq<char>, sep: char)
    ensures
        split_on(s, sep).len() >= 1,
    decreases s.len(),
{
    if s.len() > 0 {
        lemma_split_on_nonempty(s.drop_last(), sep);
    }
}

/// The pieces of `chars` between occurrences of `sep`.
pub fn split_chars(chars: &Vec<char>, sep: char) -> (pieces: Vec<Vec<char>>)
    ensures
        char_views(pieces@) == split_on(chars@, sep),
{
    let mut done: Vec<Vec<char>> = Vec::new();
    let mut cur: Vec<char> = Vec::new();
    let n = chars.len();
    let mut i: usize = 0;
    assert(chars@.take(0) =~= Seq::<char>::empty());
    assert(char_views(done@).push(cur@) =~= split_on(chars@.take(0), sep));
    while i < n
        invariant
            n == chars@.len(),
            0 <= i <= n,
            char_views(done@).push(cur@) == split_on(chars@.take(i as int), sep),
        decreases n - i,
    {
        let c = chars[i];
        let ghost prefix = chars@.take(i as int);
        let ghost next = chars@.take(i + 1);
        assert(next.drop_last() =~= prefix);
        assert(next.last() == c);
        proof {
            lemma_split_on_nonempty(prefix, sep);
        }
        if c == sep {
            let ghost old_done = done@;
            let ghost old_cur = cur@;
            done.push(cur);
            cur = Vec::new();
            assert(char_views(done@) =~= char_views(old_done).push(old_cur));
            assert(char_views(done@).push(cur@) =~= split_on(next, sep));
        } else {
            let ghost old_cur = cur@;
            cur.push(c);
            assert(char_views(done@).push(cur@) =~= split_on(next, sep));
        }
        i = i + 1;
    }
    assert(chars@.take(n as int) =~= chars@);
    let ghost old_done = done@;
    let ghost last = cur@;
    done.push(cur);
    assert(char_views(done@) =~= char_views(old_done).push(last));
    done
}

/// Turns each character vector into a string.
pub fn strings_from(pieces: &Vec<Vec<char>>) -> (out: Vec<String>)
    ensures
        views(out@) == char_views(pieces@),
{
    let mut out: Vec<String> = Vec::new();
    let n = pieces.len();
    let mut i: usize = 0;
    while i < n
        invariant
            n == pieces@.len(),
            0 <= i <= n,
            views(out@) == char_views(pieces@).take(i as int),
        decreases n - i,
    {
        let s = string_from_chars(&pieces[i]);
        let ghost old_out = out@;
        out.push(s);
        assert(views(out@) =~= views(old_out).push(s@));
        assert(char_views(pieces@).take(i + 1) =~= char_views(pieces@).take(i as int).push(
            pieces@[i as int]@,
        ));
        i = i + 1;
    }
    assert(char_views(pieces@).take(n as int) =~= char_views(pieces@));
    out
}

/// The pieces of `s` between occurrences of `sep` (`s.split(sep)`).
pub fn split_text(s: &str, sep: char) -> (pieces: Vec<String>)
    ensures
        views(pieces@) == split_on(s@, sep),
{
    let chars = chars_of(s);
    let parts = split_chars(&chars, sep);
    strings_from(&parts)
}


// ---------------------------------------------------------------------------
// Lines
// ---------------------------------------------------------------------------

/// A line without the carriage return that ended it, if any.
pub open spec fn strip_cr(line: Seq<char>) -> Seq<char> {
    if line.len() > 0 && line.last() == '\r' {
        line.drop_last()
    } else {
        line
    }
}

/// The lines of `s`, as `str::lines` gives them: `s` is cut at each `'\n'`,
/// a `'\r'` just before a `'\n'` is dropped, and a last piece after the final
/// `'\n'` counts as a line only when it is not empty.
pub open spec fn text_lines(s: Seq<char>) -> Seq<Seq<char>> {
    let pieces = split_on(s, '\n');
    let ended = pieces.drop_last().map_values(|l: Seq<char>| strip_cr(l));
    if pieces.last().len() > 0 {
        ended.push(pieces.last())
    } else {
        ended
    }
}

/// Whether a line has at least one character.
pub open spec fn is_filled(line: Seq<char>) -> bool {
    line.len() > 0
}

/// The lines of `s` that are not empty (`s.lines().filter(|l| !l.is_empty())`).
pub open spec fn filled_lines(s: Seq<char>) -> Seq<Seq<char>> {
    text_lines(s).filter(|l: Seq<char>| is_filled(l))
}

/// Drops a carriage return at the end of `v`.
fn drop_trailing_cr(v: &mut Vec<char>)
    ensures
        final(v)@ == strip_cr(old(v)@),
{
    let n = v.len();
    if n > 0 && v[n - 1] == '\r' {
        v.pop();
    }
}

/// The lines of a text (`s.lines()`).
pub fn lines(s: &str) -> (out: Vec<String>)
    ensures
        views(out@) == text_lines(s@),
{
    let chars = chars_of(s);
    let pieces = split_chars(&chars, '\n');
    proof {
        lemma_split_on_nonempty(s@, '\n');
    }
    let ghost all = char_views(pieces@);
    let n = pieces.len();
    let mut kept: Vec<Vec<char>> = Vec::new();
    let mut i: usize = 0;
    while i + 1 < n
        invariant
            n == pieces@.len(),
            n >= 1,
            all == char_views(pieces@),
            0 <= i <= n - 1,
            char_views(kept@) == all.take(i as int).map_values(|l: Seq<char>| strip_cr(l)),
        decreases n - i,
    {
        let mut line = pieces[i].clone();
        drop_trailing_cr(&mut line);
        let ghost old_kept = kept@;
        kept.push(line);
        assert(char_views(kept@) =~= char_views(old_kept).push(strip_cr(all[i as int])));
        assert(all.take(i + 1) =~= all.take(i as int).push(all[i as int]));
        assert(all.take(i + 1).map_values(|l: Seq<char>| strip_cr(l)) =~= all.take(
            i as int,
        ).map_values(|l: Seq<char>| strip_cr(l)).push(strip_cr(all[i as int])));
        i = i + 1;
    }
    assert(all.take(n - 1) =~= all.drop_last());
    if pieces[n - 1].len() > 0 {
        let last = pieces[n - 1].clone();
        let ghost old_kept = kept@;
        kept.push(last);
        assert(char_views(kept@) =~= char_views(old_kept).push(all.last()));
    }
    strings_from(&kept)
}

/// Keeps the strings that are not empty, in order.
pub fn keep_filled(items: Vec<String>) -> (out: Vec<String>)
    ensures
        views(out@) == views(items@).filter(|l: Seq<char>| is_filled(l)),
{
    let ghost all = views(items@);
    let mut out: Vec<String> = Vec::new();
    let n = items.len();
    let mut i: usize = 0;
    while i < n
        invariant
            n == items@.len(),
            all == views(items@),
            0 <= i <= n,
            views(out@) == all.take(i as int).filter(|l: Seq<char>| is_filled(l)),
        decreases n - i,
    {
        let item = items[i].clone();
        let ghost old_out = out@;
        assert(all.take(i + 1).drop_last() =~= all.take(i as int));
        assert(all.take(i + 1).last() == item@);
        reveal(Seq::filter);
        if !item.as_str().is_empty() {
            out.push(item);
            assert(views(out@) =~= views(old_out).push(all[i as int]));
        }
        i = i + 1;
    }
    assert(all.take(n as int) =~= all);
    out
}

/// The lines of a text that are not empty.
pub fn filled_text_lines(s: &str) -> (out: Vec<String>)
    ensures
        views(out@) == filled_lines(s@),
{
    keep_filled(lines(s))
}


// ---------------------------------------------------------------------------
// Trimming
// ---------------------------------------------------------------------------

/// Unicode white space, as `char::is_whitespace` decides it: the property
/// White_Space, which holds of U+0009 to U+000D, U+0020, U+0085, U+00A0,
/// U+1680, U+2000 to U+200A, U+2028, U+2029, U+202F, U+205F and U+3000.
pub open spec fn is_space(c: char) -> bool {
    let u = c as u32;
    ||| 0x09 <= u <= 0x0D
    ||| u == 0x20
    ||| u == 0x85
    ||| u == 0xA0
    ||| u == 0x1680
    ||| 0x2000 <= u <= 0x200A
    ||| u == 0x2028
    ||| u == 0x2029
    ||| u == 0x202F
    ||| u == 0x205F
    ||| u == 0x3000
}

/// Whether `c` is white space.
pub fn space(c: char) -> (b: bool)
    ensures
        b == is_space(c),
{
    let u = c as u32;
    (0x09 <= u && u <= 0x0D) || u == 0x20 || u == 0x85 || u == 0xA0 || u == 0x1680 || (0x2000
        <= u && u <= 0x200A) || u == 0x2028 || u == 0x2029 || u == 0x202F || u == 0x205F || u
        == 0x3000
}

/// `s` without its leading white space.
pub open spec fn trim_start(s: Seq<char>) -> Seq<char>
    decreases s.len(),
{
    if s.len() > 0 && is_space(s[0]) {
        trim_start(s.drop_first())
    } else {
        s
    }
}

/// `s` without its trailing white space.
pub open spec fn trim_end(s: Seq<char>) -> Seq<char>
    decreases s.len(),
{
    if s.len() > 0 && is_space(s.last()) {
        trim_end(s.drop_last())
    } else {
        s
    }
}

/// `s` without leading and trailing white space (`str::trim`).
pub open spec fn trim(s: Seq<char>) -> Seq<char> {
    trim_end(trim_start(s))
}

/// The characters of `chars` without leading and trailing white space.
pub fn trim_chars(chars: &Vec<char>) -> (s: String)
    ensures
        s@ == trim(chars@),
{
    let n = chars.len();
    let mut i: usize = 0;
    assert(chars@.subrange(0, n as int) =~= chars@);
    while i < n && space(chars[i])
        invariant
            n == chars@.len(),
            0 <= i <= n,
            trim_start(chars@) == trim_start(chars@.subrange(i as int, n as int)),
        decreases n - i,
    {
        assert(chars@.subrange(i as int, n as int).drop_first() =~= chars@.subrange(
            i + 1,
            n as int,
        ));
        i = i + 1;
    }
    let ghost rest = chars@.subrange(i as int, n as int);
    assert(trim_start(rest) == rest);
    let mut j: usize = n;
    while j > i && space(chars[j - 1])
        invariant
            n == chars@.len(),
            0 <= i <= j <= n,
            rest == chars@.subrange(i as int, n as int),
            trim_end(rest) == trim_end(chars@.subrange(i as int, j as int)),
        decreases j - i,
    {
        assert(chars@.subrange(i as int, j as int).drop_last() =~= chars@.subrange(
            i as int,
            j - 1,
        ));
        j = j - 1;
    }
    string_from_range(chars, i, j)
}

/// `s` without leading and trailing white space (`s.trim()`).
pub fn trim_text(s: &str) -> (t: String)
    ensures
        t@ == trim(s@),
{
    let chars = chars_of(s);
    trim_chars(&chars)
}

/// Each string trimmed, in order.
pub fn trim_each(items: &Vec<String>) -> (out: Vec<String>)
    ensures
        views(out@) == views(items@).map_values(|l: Seq<char>| trim(l)),
{
    let ghost all = views(items@);
    let mut out: Vec<String> = Vec::new();
    let n = items.len();
    let mut i: usize = 0;
    while i < n
        invariant
            n == items@.len(),
            all == views(items@),
            0 <= i <= n,
            views(out@) == all.take(i as int).map_values(|l: Seq<char>| trim(l)),
        decreases n - i,
    {
        let t = trim_text(items[i].as_str());
        let ghost old_out = out@;
        out.push(t);
        assert(views(out@) =~= views(old_out).push(trim(all[i as int])));
        assert(all.take(i + 1).map_values(|l: Seq<char>| trim(l)) =~= all.take(
            i as int,
        ).map_values(|l: Seq<char>| trim(l)).push(trim(all[i as int])));
        i = i + 1;
    }
    assert(all.take(n as int) =~= all);
    out
}

// ---------------------------------------------------------------------------
// Joining
// ---------------------------------------------------------------------------

/// The pieces with `sep` between each two of them (`[..].join(sep)`).
pub open spec fn join(pieces: Seq<Seq<char>>, sep: Seq<char>) -> Seq<char>
    decreases pieces.len(),
{
    if pieces.len() == 0 {
        Seq::<char>::empty()
    } else if pieces.len() == 1 {
        pieces[0]
    } else {
        join(pieces.drop_last(), sep) + sep + pieces.last()
    }
}

/// The strings with `sep` between each two of them (`items.join(sep)`).
pub fn join_strings(items: &Vec<String>, sep: &str) -> (s: String)
    ensures
        s@ == join(views(items@), sep@),
{
    let ghost all = views(items@);
    let mut s = String::new();
    let n = items.len();
    let mut i: usize = 0;
    while i < n
        invariant
            n == items@.len(),
            all == views(items@),
            0 <= i <= n,
            s@ == join(all.take(i as int), sep@),
        decreases n - i,
    {
        assert(all.take(i + 1).drop_last() =~= all.take(i as int));
        assert(all.take(i + 1).last() == items@[i as int]@);
        if i > 0 {
            s.append(sep);
        } else {
            assert(all.take(1) =~= seq![all[0]]);
        }
        s.append(items[i].as_str());
        i = i + 1;
    }
    assert(all.take(n as int) =~= all);
    s
}

/// Owned copies of string slices, in order.
pub fn owned_strings(items: &[&str]) -> (out: Vec<String>)
    ensures
        views(out@) == str_views(items@),
{
    let mut out: Vec<String> = Vec::new();
    let n = items.len();
    let mut i: usize = 0;
    while i < n
        invariant
            n == items@.len(),
            0 <= i <= n,
            views(out@) == str_views(items@).take(i as int),
        decreases n - i,
    {
        let t = String::from_str(items[i]);
        let ghost old_out = out@;
        out.push(t);
        assert(views(out@) =~= views(old_out).push(items@[i as int]@));
        assert(str_views(items@).take(i + 1) =~= str_views(items@).take(i as int).push(
            items@[i as int]@,
        ));
        i = i + 1;
    }
    assert(str_views(items@).take(n as int) =~= str_views(items@));
    out
}


// ---------------------------------------------------------------------------
// Laws
// ---------------------------------------------------------------------------

/// Text that holds no separator is a single piece.
pub proof fn lemma_split_without_sep(y: Seq<char>, sep: char)
    requires
        !y.contains(sep),
    ensures
        split_on(y, sep) == seq![y],
    decreases y.len(),
{
    if y.len() > 0 {
        let init = y.drop_last();
        assert(!init.contains(sep)) by {
            if init.contains(sep) {
                let i = choose|i: int| 0 <= i < init.len() && init[i] == sep;
                assert(y[i] == sep);
            }
        }
        lemma_split_without_sep(init, sep);
        assert(y.last() != sep) by {
            assert(y[y.len() - 1] == y.last());
        }
        assert(init.push(y.last()) =~= y);
        assert(seq![init].update(0, init.push(y.last())) =~= seq![y]);
    } else {
        assert(y =~= Seq::<char>::empty());
    }
}

/// Splitting `x`, a separator and then `y`, which holds no separator, gives
/// the pieces of `x` and then `y`.
pub proof fn lemma_split_after_sep(x: Seq<char>, y: Seq<char>, sep: char)
    requires
        !y.contains(sep),
    ensures
        split_on(x + seq![sep] + y, sep) == split_on(x, sep).push(y),
    decreases y.len(),
{
    let whole = x + seq![sep] + y;
    if y.len() == 0 {
        assert(whole.drop_last() =~= x);
        assert(whole.last() == sep);
        assert(y =~= Seq::<char>::empty());
    } else {
        let init = y.drop_last();
        assert(!init.contains(sep)) by {
            if init.contains(sep) {
                let i = choose|i: int| 0 <= i < init.len() && init[i] == sep;
                assert(y[i] == sep);
            }
        }
        lemma_split_after_sep(x, init, sep);
        assert(whole.drop_last() =~= x + seq![sep] + init);
        assert(whole.last() == y.last());
        assert(y.last() != sep) by {
            assert(y[y.len() - 1] == y.last());
        }
        let r = split_on(x, sep).push(init);
        assert(init.push(y.last()) =~= y);
        assert(r.update(r.len() - 1, init.push(y.last())) =~= split_on(x, sep).push(y));
    }
}

/// Splitting pieces joined by a separator gives the pieces back, where no
/// piece holds the separator and there is at least one piece.
pub proof fn lemma_split_join(pieces: Seq<Seq<char>>, sep: char)
    requires
        pieces.len() >= 1,
        forall|i: int| 0 <= i < pieces.len() ==> !(#[trigger] pieces[i]).contains(sep),
    ensures
        split_on(join(pieces, seq![sep]), sep) == pieces,
    decreases pieces.len(),
{
    if pieces.len() == 1 {
        lemma_split_without_sep(pieces[0], sep);
        assert(seq![pieces[0]] =~= pieces);
    } else {
        let init = pieces.drop_last();
        assert forall|i: int| 0 <= i < init.len() implies !(#[trigger] init[i]).contains(sep) by {
            assert(init[i] == pieces[i]);
        }
        lemma_split_join(init, sep);
        assert(!pieces.last().contains(sep)) by {
            assert(pieces[pieces.len() - 1] == pieces.last());
        }
        lemma_split_after_sep(join(init, seq![sep]), pieces.last(), sep);
        assert(init.push(pieces.last()) =~= pieces);
    }
}

/// Filtering keeps every item of a sequence whose items all pass.
pub proof fn lemma_filter_all(items: Seq<Seq<char>>)
    requires
        forall|i: int| 0 <= i < items.len() ==> is_filled(#[trigger] items[i]),
    ensures
        items.filter(|l: Seq<char>| is_filled(l)) == items,
    decreases items.len(),
{
    reveal(Seq::filter);
    if items.len() > 0 {
        let init = items.drop_last();
        assert forall|i: int| 0 <= i < init.len() implies is_filled(#[trigger] init[i]) by {
            assert(init[i] == items[i]);
        }
        lemma_filter_all(init);
        assert(is_filled(items.last())) by {
            assert(items[items.len() - 1] == items.last());
        }
        assert(init.push(items.last()) =~= items);
    }
}

/// A line that can stand on its own in a text with one item per line: it is
/// not empty, holds no line feed and does not end with a carriage return.
pub open spec fn is_plain_line(l: Seq<char>) -> bool {
    &&& l.len() > 0
    &&& !l.contains('\n')
    &&& l.last() != '\r'
}

/// Law: the lines that are not empty of a text made of plain lines, each
/// followed by a line feed but the last, are those lines.
pub proof fn lemma_filled_lines_of_joined(items: Seq<Seq<char>>)
    requires
        forall|i: int| 0 <= i < items.len() ==> is_plain_line(#[trigger] items[i]),
    ensures
        filled_lines(join(items, seq!['\n'])) == items,
{
    let text = join(items, seq!['\n']);
    if items.len() == 0 {
        assert(text =~= Seq::<char>::empty());
        reveal(Seq::filter);
        assert(split_on(text, '\n') =~= seq![Seq::<char>::empty()]);
        assert(text_lines(text) =~= Seq::<Seq<char>>::empty());
    } else {
        assert forall|i: int| 0 <= i < items.len() implies !(#[trigger] items[i]).contains('\n') by {
            assert(is_plain_line(items[i]));
        }
        lemma_split_join(items, '\n');
        let pieces = split_on(text, '\n');
        assert(pieces == items);
        let ended = pieces.drop_last().map_values(|l: Seq<char>| strip_cr(l));
        assert forall|i: int| 0 <= i < ended.len() implies #[trigger] ended[i] == items[i] by {
            assert(is_plain_line(items[i]));
        }
        assert(is_plain_line(items.last())) by {
            assert(items[items.len() - 1] == items.last());
        }
        assert(ended.push(items.last()) =~= items);
        assert(text_lines(text) == items);
        assert forall|i: int| 0 <= i < items.len() implies is_filled(#[trigger] items[i]) by {
            assert(is_plain_line(items[i]));
        }
        lemma_filter_all(items);
    }
}

/// An item without white space at either end.
pub open spec fn is_trimmed(k: Seq<char>) -> bool {
    k.len() == 0 || (!is_space(k[0]) && !is_space(k.last()))
}

/// Trimming leaves an item without white space at either end as it is.
pub proof fn lemma_trim_trimmed(k: Seq<char>)
    requires
        is_trimmed(k),
    ensures
        trim(k) == k,
{
    assert(trim_start(k) == k);
    if k.len() > 0 {
        assert(k[k.len() - 1] == k.last());
    }
    assert(trim_end(k) == k);
}

} // verus!
