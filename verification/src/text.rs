//! Character-level text handling shared by the configuration readers, the
//! log and the command runner: white space, trimming, line splitting and
//! decimal rendering of numbers.

use vstd::prelude::*;
use vstd::string::*;

verus! {

/// The characters that carry the Unicode `White_Space` property
/// (PropList.txt), which is what `char::is_whitespace` tests.
pub open spec fn is_white_space(c: char) -> bool {
    let u = c as u32;
    ||| 0x09 <= u <= 0x0d
    ||| u == 0x20
    ||| u == 0x85
    ||| u == 0xa0
    ||| u == 0x1680
    ||| 0x2000 <= u <= 0x200a
    ||| u == 0x2028
    ||| u == 0x2029
    ||| u == 0x202f
    ||| u == 0x205f
    ||| u == 0x3000
}

/// `s` without its leading white space.
pub open spec fn trim_start(s: Seq<char>) -> Seq<char>
    decreases s.len(),
{
    if s.len() > 0 && is_white_space(s[0]) {
        trim_start(s.drop_first())
    } else {
        s
    }
}

/// `s` without its trailing white space.
pub open spec fn trim_end(s: Seq<char>) -> Seq<char>
    decreases s.len(),
{
    if s.len() > 0 && is_white_space(s.last()) {
        trim_end(s.drop_last())
    } else {
        s
    }
}

/// `s` without leading and trailing white space, as `str::trim` gives it.
pub open spec fn trim(s: Seq<char>) -> Seq<char> {
    trim_end(trim_start(s))
}

/// Position of the first `c` in `s`, or the length of `s` when there is none.
pub open spec fn first_index(s: Seq<char>, c: char) -> nat
    decreases s.len(),
{
    if s.len() == 0 {
        0
    } else if s[0] == c {
        0
    } else {
        1 + first_index(s.drop_first(), c)
    }
}

/// `l` with one trailing carriage return removed, if it has one.
pub open spec fn strip_cr(l: Seq<char>) -> Seq<char> {
    if l.len() > 0 && l.last() == '\r' {
        l.drop_last()
    } else {
        l
    }
}

/// The lines of a text as `BufRead::lines` yields them: pieces ended by a
/// line feed, each without that line feed and without a carriage return
/// right before it; a last piece with no line feed after it counts when it
/// is not empty, and keeps any carriage return.
pub open spec fn file_lines(s: Seq<char>) -> Seq<Seq<char>>
    decreases s.len(),
{
    if s.len() == 0 {
        seq![]
    } else {
        let n = first_index(s, '\n') as int;
        if n < s.len() {
            seq![strip_cr(s.take(n as int))] + file_lines(s.skip(n + 1int))
        } else {
            seq![s]
        }
    }
}

/// The pieces of `s` between line feeds, as `str::split('\n')` yields them:
/// always at least one, empty pieces included.
pub open spec fn newline_pieces(s: Seq<char>) -> Seq<Seq<char>>
    decreases s.len(),
{
    let n = first_index(s, '\n') as int;
    if n < s.len() {
        seq![s.take(n as int)] + newline_pieces(s.skip(n + 1int))
    } else {
        seq![s]
    }
}

/// The decimal digit character for `d` (taken modulo ten).
pub open spec fn digit_char(d: nat) -> char {
    let d = d % 10;
    if d == 0 { '0' }
    else if d == 1 { '1' }
    else if d == 2 { '2' }
    else if d == 3 { '3' }
    else if d == 4 { '4' }
    else if d == 5 { '5' }
    else if d == 6 { '6' }
    else if d == 7 { '7' }
    else if d == 8 { '8' }
    else { '9' }
}

/// The decimal rendering of `n`, as `Display` prints an unsigned integer.
pub open spec fn decimal(n: nat) -> Seq<char>
    decreases n,
{
    if n < 10 {
        seq![digit_char(n)]
    } else {
        decimal(n / 10) + seq![digit_char(n % 10)]
    }
}

/// The rendering of a boolean, as `Display` prints it.
pub open spec fn bool_text(b: bool) -> Seq<char> {
    if b { "true"@ } else { "false"@ }
}

/// `trim_start` drops exactly a leading run of white space.
pub proof fn lemma_trim_start_at(s: Seq<char>, k: int)
    requires
        0 <= k <= s.len(),
        forall|j: int| 0 <= j < k ==> is_white_space(#[trigger] s[j]),
        k == s.len() || !is_white_space(s[k]),
    ensures
        trim_start(s) == s.skip(k),
    decreases k,
{
    if k == 0 {
        assert(s.skip(0) =~= s);
    } else {
        let t = s.drop_first();
        assert forall|j: int| 0 <= j < k - 1 implies is_white_space(#[trigger] t[j]) by {
            assert(t[j] == s[j + 1]);
        }
        if k < s.len() {
            assert(t[k - 1] == s[k]);
        }
        lemma_trim_start_at(t, k - 1);
        assert(t.skip(k - 1) =~= s.skip(k));
    }
}

/// `trim_end` drops exactly a trailing run of white space.
pub proof fn lemma_trim_end_at(s: Seq<char>, k: int)
    requires
        0 <= k <= s.len(),
        forall|j: int| k <= j < s.len() ==> is_white_space(#[trigger] s[j]),
        k == 0 || !is_white_space(s[k - 1]),
    ensures
        trim_end(s) == s.take(k),
    decreases s.len() - k,
{
    if k == s.len() {
        assert(s.take(k) =~= s);
    } else {
        let t = s.drop_last();
        assert forall|j: int| k <= j < t.len() implies is_white_space(#[trigger] t[j]) by {
            assert(t[j] == s[j]);
        }
        if k > 0 {
            assert(t[k - 1] == s[k - 1]);
        }
        lemma_trim_end_at(t, k);
        assert(t.take(k) =~= s.take(k));
    }
}

/// The first `c` is at `k` when none comes before `k` and one is at `k`.
pub proof fn lemma_first_index_at(s: Seq<char>, c: char, k: int)
    requires
        0 <= k <= s.len(),
        forall|j: int| 0 <= j < k ==> #[trigger] s[j] != c,
        k == s.len() || s[k] == c,
    ensures
        first_index(s, c) == k,
    decreases k,
{
    if k > 0 {
        let t = s.drop_first();
        assert forall|j: int| 0 <= j < k - 1 implies #[trigger] t[j] != c by {
            assert(t[j] == s[j + 1]);
        }
        if k < s.len() {
            assert(t[k - 1] == s[k]);
        }
        lemma_first_index_at(t, c, k - 1);
    }
}

/// The texts of `ps` with a line feed between each two.
pub open spec fn joined_by_newlines(ps: Seq<Seq<char>>) -> Seq<char>
    decreases ps.len(),
{
    if ps.len() == 0 {
        Seq::empty()
    } else if ps.len() == 1 {
        ps[0]
    } else {
        ps[0] + seq!['\n'] + joined_by_newlines(ps.drop_first())
    }
}

/// The value of a text of decimal digits, most significant first.
pub open spec fn digits_value(d: Seq<char>) -> int
    decreases d.len(),
{
    if d.len() == 0 {
        0
    } else {
        digits_value(d.drop_last()) * 10 + (d.last() as int - '0' as int)
    }
}

/// `first_index` points at the first `c`: none comes before it, and there
/// is a `c` at it unless it is the end of `s`.
pub proof fn lemma_first_index(s: Seq<char>, c: char)
    ensures
        first_index(s, c) <= s.len(),
        forall|j: int| 0 <= j < first_index(s, c) ==> #[trigger] s[j] != c,
        first_index(s, c) < s.len() ==> s[first_index(s, c) as int] == c,
    decreases s.len(),
{
    if s.len() > 0 && s[0] != c {
        let t = s.drop_first();
        lemma_first_index(t, c);
        assert forall|j: int| 0 <= j < first_index(s, c) implies #[trigger] s[j] != c by {
            if j > 0 {
                assert(s[j] == t[j - 1]);
            }
        }
        if first_index(s, c) < s.len() {
            assert(s[first_index(s, c) as int] == t[first_index(t, c) as int]);
        }
    }
}

/// The pieces between line feeds hold no line feed, there is at least one,
/// and put back together with line feeds they give the text again.
pub proof fn lemma_newline_pieces(s: Seq<char>)
    ensures
        newline_pieces(s).len() >= 1,
        forall|i: int, j: int|
            0 <= i < newline_pieces(s).len() && 0 <= j < newline_pieces(s)[i].len() ==> (
            #[trigger] newline_pieces(s)[i][j]) != '\n',
        joined_by_newlines(newline_pieces(s)) == s,
    decreases s.len(),
{
    lemma_first_index(s, '\n');
    let n = first_index(s, '\n') as int;
    let ps = newline_pieces(s);
    if n < s.len() {
        let rest = s.skip(n + 1);
        lemma_newline_pieces(rest);
        let qs = newline_pieces(rest);
        assert(ps == seq![s.take(n)] + qs);
        assert forall|i: int, j: int|
            0 <= i < ps.len() && 0 <= j < ps[i].len() implies (#[trigger] ps[i][j]) != '\n' by {
            if i == 0 {
                assert(ps[0] == s.take(n));
                assert(s.take(n)[j] == s[j]);
            } else {
                assert(ps[i] == qs[i - 1]);
            }
        }
        assert(ps.drop_first() =~= qs);
        assert(joined_by_newlines(ps) == s.take(n) + seq!['\n'] + joined_by_newlines(qs));
        assert(s.take(n) + seq!['\n'] + rest =~= s);
    } else {
        assert(ps == seq![s]);
        assert forall|i: int, j: int|
            0 <= i < ps.len() && 0 <= j < ps[i].len() implies (#[trigger] ps[i][j]) != '\n' by {
            assert(ps[i] == s);
        }
    }
}

/// No line holds a line feed.
pub proof fn lemma_file_lines_no_newline(s: Seq<char>)
    ensures
        forall|i: int, j: int|
            0 <= i < file_lines(s).len() && 0 <= j < file_lines(s)[i].len() ==> (
            #[trigger] file_lines(s)[i][j]) != '\n',
    decreases s.len(),
{
    if s.len() > 0 {
        lemma_first_index(s, '\n');
        let n = first_index(s, '\n') as int;
        let ls = file_lines(s);
        if n < s.len() {
            let rest = s.skip(n + 1);
            lemma_file_lines_no_newline(rest);
            assert(ls == seq![strip_cr(s.take(n))] + file_lines(rest));
            assert forall|i: int, j: int|
                0 <= i < ls.len() && 0 <= j < ls[i].len() implies (#[trigger] ls[i][j]) != '\n' by {
                if i == 0 {
                    assert(ls[0][j] == s[j]);
                } else {
                    assert(ls[i] == file_lines(rest)[i - 1]);
                }
            }
        } else {
            assert(ls == seq![s]);
            assert forall|i: int, j: int|
                0 <= i < ls.len() && 0 <= j < ls[i].len() implies (#[trigger] ls[i][j]) != '\n' by {
                assert(ls[i] == s);
            }
        }
    }
}

/// A text without carriage returns is its lines put back together with line
/// feeds, followed by a line feed when it ends with one.
pub proof fn lemma_file_lines_rejoin(s: Seq<char>)
    requires
        forall|i: int| 0 <= i < s.len() ==> #[trigger] s[i] != '\r',
    ensures
        joined_by_newlines(file_lines(s)) + (if s.len() > 0 && s.last() == '\n' {
            seq!['\n']
        } else {
            Seq::<char>::empty()
        }) == s,
    decreases s.len(),
{
    if s.len() > 0 {
        lemma_first_index(s, '\n');
        let n = first_index(s, '\n') as int;
        if n < s.len() {
            let rest = s.skip(n + 1);
            let head = s.take(n);
            if n > 0 {
                assert(head.last() == s[n - 1]);
            }
            assert(strip_cr(head) == head);
            assert forall|i: int| 0 <= i < rest.len() implies #[trigger] rest[i] != '\r' by {
                assert(rest[i] == s[n + 1 + i]);
            }
            lemma_file_lines_rejoin(rest);
            let ls = file_lines(s);
            assert(ls == seq![head] + file_lines(rest));
            if rest.len() == 0 {
                assert(file_lines(rest) =~= Seq::<Seq<char>>::empty());
                assert(ls =~= seq![head]);
                assert(s.last() == '\n');
                assert(head + seq!['\n'] =~= s);
            } else {
                assert(file_lines(rest).len() >= 1) by {
                    lemma_first_index(rest, '\n');
                }
                assert(ls.drop_first() =~= file_lines(rest));
                assert(rest.last() == s.last());
                assert(head + seq!['\n'] + rest =~= s);
            }
        } else {
            assert(file_lines(s) == seq![s]);
            assert(s.last() != '\n');
        }
    }
}

/// A line ended by a line feed is read without it; a carriage return right
/// before the line feed is dropped too; the rest of the text gives the
/// following lines.
pub proof fn lemma_file_lines_first(l: Seq<char>, ending: Seq<char>, rest: Seq<char>)
    requires
        forall|i: int| 0 <= i < l.len() ==> #[trigger] l[i] != '\n',
        ending == seq!['\n'] || ending == seq!['\r', '\n'],
        ending == seq!['\n'] ==> l.len() == 0 || l.last() != '\r',
    ensures
        file_lines(l + ending + rest) == seq![l] + file_lines(rest),
{
    let s = l + ending + rest;
    let n = l.len() + ending.len() - 1;
    assert forall|j: int| 0 <= j < n implies #[trigger] s[j] != '\n' by {
        if j < l.len() {
            assert(s[j] == l[j]);
        } else {
            assert(s[j] == '\r');
        }
    }
    assert(s[n] == '\n');
    lemma_first_index_at(s, '\n', n);
    assert(s.skip(n + 1) =~= rest);
    if ending == seq!['\n'] {
        assert(s.take(n) =~= l);
    } else {
        assert(s.take(n) =~= l.push('\r'));
        assert(l.push('\r').drop_last() =~= l);
    }
}

/// A text without line feed is one line, or none when it is empty.
pub proof fn lemma_file_lines_single(l: Seq<char>)
    requires
        forall|i: int| 0 <= i < l.len() ==> #[trigger] l[i] != '\n',
    ensures
        file_lines(l) == if l.len() == 0 {
            Seq::<Seq<char>>::empty()
        } else {
            seq![l]
        },
{
    lemma_first_index_at(l, '\n', l.len() as int);
}

/// `bool_text` spells the two values out.
pub proof fn lemma_bool_text()
    ensures
        bool_text(true) == seq!['t', 'r', 'u', 'e'],
        bool_text(false) == seq!['f', 'a', 'l', 's', 'e'],
{
    reveal_strlit("true");
    reveal_strlit("false");
    assert("true"@ =~= seq!['t', 'r', 'u', 'e']);
    assert("false"@ =~= seq!['f', 'a', 'l', 's', 'e']);
}

/// Lines that a complete text (empty, or ending with a line feed) is
/// followed by: a last line without line feed adds one line.
pub proof fn lemma_file_lines_append(a: Seq<char>, l: Seq<char>)
    requires
        a.len() == 0 || a.last() == '\n',
        l.len() > 0,
        forall|i: int| 0 <= i < l.len() ==> #[trigger] l[i] != '\n',
    ensures
        file_lines(a + l) == file_lines(a).push(l),
    decreases a.len(),
{
    if a.len() == 0 {
        assert(a + l =~= l);
        lemma_first_index(l, '\n');
        assert(file_lines(a) =~= Seq::<Seq<char>>::empty());
    } else {
        let s = a + l;
        lemma_first_index(a, '\n');
        let n = first_index(a, '\n') as int;
        assert(a[a.len() - 1] == '\n');
        assert(n < a.len());
        assert forall|j: int| 0 <= j < n implies #[trigger] s[j] != '\n' by {
            assert(s[j] == a[j]);
        }
        lemma_first_index_at(s, '\n', n);
        let rest = a.skip(n + 1);
        assert(s.take(n) =~= a.take(n));
        assert(s.skip(n + 1) =~= rest + l);
        if rest.len() > 0 {
            assert(rest.last() == a.last());
        }
        lemma_file_lines_append(rest, l);
        assert(file_lines(s) == seq![strip_cr(a.take(n))] + file_lines(rest + l));
        assert(file_lines(a) == seq![strip_cr(a.take(n))] + file_lines(rest));
        assert(file_lines(s) =~= file_lines(a).push(l));
    }
}

/// What `trim` keeps: a stretch of `s` with white space (only) before and
/// after it, that neither starts nor ends with white space.
pub proof fn lemma_trim(s: Seq<char>) -> (r: (int, int))
    ensures
        0 <= r.0 <= r.1 <= s.len(),
        trim(s) == s.subrange(r.0, r.1),
        forall|k: int| 0 <= k < r.0 ==> is_white_space(#[trigger] s[k]),
        forall|k: int| r.1 <= k < s.len() ==> is_white_space(#[trigger] s[k]),
        r.0 < r.1 ==> !is_white_space(s[r.0]) && !is_white_space(s[r.1 - 1]),
{
    let i = lemma_trim_start_shape(s);
    let t = s.skip(i);
    let j = lemma_trim_end_shape(t);
    assert(t.take(j) =~= s.subrange(i, i + j));
    assert forall|k: int| i + j <= k < s.len() implies is_white_space(#[trigger] s[k]) by {
        assert(s[k] == t[k - i]);
    }
    if j > 0 {
        assert(t[0] == s[i]);
        assert(t[j - 1] == s[i + j - 1]);
    }
    (i, i + j)
}

/// `trim_start` keeps a suffix after a run of white space, starting with
/// something else.
pub proof fn lemma_trim_start_shape(s: Seq<char>) -> (i: int)
    ensures
        0 <= i <= s.len(),
        trim_start(s) == s.skip(i),
        forall|k: int| 0 <= k < i ==> is_white_space(#[trigger] s[k]),
        i < s.len() ==> !is_white_space(s[i]),
    decreases s.len(),
{
    if s.len() > 0 && is_white_space(s[0]) {
        let t = s.drop_first();
        let i = lemma_trim_start_shape(t);
        assert(t.skip(i) =~= s.skip(i + 1));
        assert forall|k: int| 0 <= k < i + 1 implies is_white_space(#[trigger] s[k]) by {
            if k > 0 {
                assert(s[k] == t[k - 1]);
            }
        }
        if i + 1 < s.len() {
            assert(s[i + 1] == t[i]);
        }
        i + 1
    } else {
        assert(s.skip(0) =~= s);
        0
    }
}

/// `trim_end` keeps a prefix before a run of white space, ending with
/// something else.
pub proof fn lemma_trim_end_shape(s: Seq<char>) -> (j: int)
    ensures
        0 <= j <= s.len(),
        trim_end(s) == s.take(j),
        forall|k: int| j <= k < s.len() ==> is_white_space(#[trigger] s[k]),
        j > 0 ==> !is_white_space(s[j - 1]),
    decreases s.len(),
{
    if s.len() > 0 && is_white_space(s.last()) {
        let t = s.drop_last();
        let j = lemma_trim_end_shape(t);
        assert(t.take(j) =~= s.take(j));
        assert forall|k: int| j <= k < s.len() implies is_white_space(#[trigger] s[k]) by {
            if k < s.len() - 1 {
                assert(s[k] == t[k]);
            }
        }
        if j > 0 {
            assert(s[j - 1] == t[j - 1]);
        }
        j
    } else {
        assert(s.take(s.len() as int) =~= s);
        s.len() as int
    }
}

/// Trimming the end first changes nothing of the trimmed text.
pub proof fn lemma_trim_of_trim_end(v: Seq<char>)
    ensures
        trim(trim_end(v)) == trim(v),
{
    let iv = lemma_trim_start_shape(v);
    let jv = lemma_trim_end_shape(v);
    if iv == v.len() {
        if jv > 0 {
            assert(is_white_space(v[jv - 1]));
        }
        assert(v.take(jv) =~= Seq::<char>::empty());
        assert(v.skip(iv) =~= Seq::<char>::empty());
    } else {
        if jv <= iv {
            assert(is_white_space(v[iv]));
        }
        let x = v.take(jv);
        assert forall|k: int| 0 <= k < iv implies is_white_space(#[trigger] x[k]) by {
            assert(x[k] == v[k]);
        }
        assert(x[iv] == v[iv]);
        lemma_trim_start_at(x, iv);
        let m = v.subrange(iv, jv);
        assert(x.skip(iv) =~= m);
        assert(m[m.len() - 1] == v[jv - 1]);
        lemma_trim_end_at(m, m.len() as int);
        assert(m.take(m.len() as int) =~= m);
        let y = v.skip(iv);
        assert forall|k: int| jv - iv <= k < y.len() implies is_white_space(#[trigger] y[k]) by {
            assert(y[k] == v[iv + k]);
        }
        assert(y[jv - iv - 1] == v[jv - 1]);
        lemma_trim_end_at(y, jv - iv);
        assert(y.take(jv - iv) =~= m);
    }
}

proof fn lemma_digit_char_value(d: nat)
    ensures
        digit_char(d) as int - '0' as int == d % 10,
        '0' as int <= digit_char(d) as int <= '9' as int,
{
}

/// `decimal` gives digits only, without a leading zero, whose value is `n`.
pub proof fn lemma_decimal(n: nat)
    ensures
        decimal(n).len() >= 1,
        forall|i: int|
            0 <= i < decimal(n).len() ==> '0' as int <= (#[trigger] decimal(n)[i]) as int <= '9' as int,
        digits_value(decimal(n)) == n,
        n >= 1 ==> decimal(n)[0] != '0',
    decreases n,
{
    if n < 10 {
        lemma_digit_char_value(n);
        assert(decimal(n) == seq![digit_char(n)]);
        assert(decimal(n).drop_last() =~= Seq::<char>::empty());
        assert(digits_value(decimal(n)) == digits_value(decimal(n).drop_last()) * 10 + (
        decimal(n).last() as int - '0' as int));
        assert(n % 10 == n);
    } else {
        let q = n / 10;
        let r = n % 10;
        lemma_decimal(q);
        lemma_digit_char_value(r);
        let d = decimal(n);
        assert(d == decimal(q) + seq![digit_char(r)]);
        assert(d.drop_last() =~= decimal(q));
        assert(d.last() == digit_char(r));
        assert(r % 10 == r);
        assert forall|i: int| 0 <= i < d.len() implies '0' as int <= (#[trigger] d[i]) as int <= '9' as int by {
            if i < decimal(q).len() {
                assert(d[i] == decimal(q)[i]);
            }
        }
        assert(q * 10 + r == n);
        assert(digits_value(d) == digits_value(d.drop_last()) * 10 + (d.last() as int - '0' as int));
        assert(d[0] == decimal(q)[0]);
    }
}

/// Tells whether `c` is white space, as `char::is_whitespace` does.
pub fn is_white_space_char(c: char) -> (r: bool)
    ensures
        r == is_white_space(c),
{
    let u = c as u32;
    (0x09 <= u && u <= 0x0d) || u == 0x20 || u == 0x85 || u == 0xa0 || u == 0x1680 || (0x2000
        <= u && u <= 0x200a) || u == 0x2028 || u == 0x2029 || u == 0x202f || u == 0x205f || u
        == 0x3000
}

/// The characters of `s`, in order.
pub fn chars_of(s: &str) -> (v: Vec<char>)
    ensures
        v@ == s@,
{
    let mut v: Vec<char> = Vec::new();
    for c in it: s.chars()
        invariant
            v@ == it.seq().take(it.index() as int),
            it.seq() == s@,
    {
        v.push(c);
    }
    v
}


/// The views of a list of strings.
pub open spec fn views(v: Seq<String>) -> Seq<Seq<char>> {
    v.map_values(|l: String| l@)
}

/// Bounds `(a, b)` such that `cs[a..b]` is `cs[lo..hi]` trimmed of white space.
pub fn trim_bounds(cs: &Vec<char>, lo: usize, hi: usize) -> (r: (usize, usize))
    requires
        lo <= hi <= cs.len(),
    ensures
        lo <= r.0 <= r.1 <= hi,
        cs@.subrange(r.0 as int, r.1 as int) == trim(cs@.subrange(lo as int, hi as int)),
{
    let mut a = lo;
    while a < hi && is_white_space_char(cs[a])
        invariant
            lo <= a <= hi <= cs.len(),
            forall|j: int| lo <= j < a ==> is_white_space(#[trigger] cs@[j]),
        decreases hi - a,
    {
        a = a + 1;
    }
    proof {
        let t = cs@.subrange(lo as int, hi as int);
        assert forall|j: int| 0 <= j < a - lo implies is_white_space(#[trigger] t[j]) by {
            assert(t[j] == cs@[lo + j]);
        }
        lemma_trim_start_at(t, a - lo);
        assert(t.skip(a - lo) =~= cs@.subrange(a as int, hi as int));
    }
    let mut b = hi;
    while b > a && is_white_space_char(cs[b - 1])
        invariant
            lo <= a <= b <= hi <= cs.len(),
            forall|j: int| b <= j < hi ==> is_white_space(#[trigger] cs@[j]),
        decreases b - a,
    {
        b = b - 1;
    }
    proof {
        let u = cs@.subrange(a as int, hi as int);
        assert forall|j: int| b - a <= j < u.len() implies is_white_space(#[trigger] u[j]) by {
            assert(u[j] == cs@[a + j]);
        }
        if b > a {
            assert(u[b - a - 1] == cs@[b - 1]);
        }
        lemma_trim_end_at(u, b - a);
        assert(u.take(b - a) =~= cs@.subrange(a as int, b as int));
    }
    (a, b)
}

/// Position of the first `c` in `cs[lo..hi]`, or `hi` when there is none.
pub fn find_char(cs: &Vec<char>, c: char, lo: usize, hi: usize) -> (e: usize)
    requires
        lo <= hi <= cs.len(),
    ensures
        lo <= e <= hi,
        e - lo == first_index(cs@.subrange(lo as int, hi as int), c),
{
    let mut e = lo;
    while e < hi && cs[e] != c
        invariant
            lo <= e <= hi <= cs.len(),
            forall|j: int| lo <= j < e ==> #[trigger] cs@[j] != c,
        decreases hi - e,
    {
        e = e + 1;
    }
    proof {
        let t = cs@.subrange(lo as int, hi as int);
        assert forall|j: int| 0 <= j < e - lo implies #[trigger] t[j] != c by {
            assert(t[j] == cs@[lo + j]);
        }
        if e < hi {
            assert(t[e - lo] == cs@[e as int]);
        }
        lemma_first_index_at(t, c, e - lo);
    }
    e
}

/// The characters `from..to` of `s` as a new string.
pub fn substring(s: &str, from: usize, to: usize) -> (r: String)
    requires
        from <= to <= s@.len(),
    ensures
        r@ == s@.subrange(from as int, to as int),
{
    String::from_str(s.substring_char(from, to))
}

/// `s` without leading and trailing white space, as `str::trim` gives it.
pub fn trim_text(s: &str) -> (r: String)
    ensures
        r@ == trim(s@),
{
    let cs = chars_of(s);
    let (a, b) = trim_bounds(&cs, 0, cs.len());
    assert(cs@.subrange(0, cs@.len() as int) =~= cs@);
    substring(s, a, b)
}

/// The lines of a text, as `BufRead::lines` yields them from its bytes.
pub fn split_file_lines(s: &str) -> (lines: Vec<String>)
    ensures
        views(lines@) == file_lines(s@),
{
    let cs = chars_of(s);
    let len = cs.len();
    let mut lines: Vec<String> = Vec::new();
    let mut pos: usize = 0;
    assert(cs@.skip(0) =~= cs@);
    while pos < len
        invariant
            len == cs@.len(),
            cs@ == s@,
            pos <= len,
            views(lines@) + file_lines(cs@.skip(pos as int)) == file_lines(cs@),
        decreases len - pos,
    {
        let ghost rest = cs@.skip(pos as int);
        let e = find_char(&cs, '\n', pos, len);
        assert(cs@.subrange(pos as int, len as int) =~= rest);
        if e < len {
            let mut end = e;
            if e > pos && cs[e - 1] == '\r' {
                end = e - 1;
            }
            let line = substring(s, pos, end);
            proof {
                assert(rest.take(e - pos) =~= cs@.subrange(pos as int, e as int));
                assert(line@ == strip_cr(rest.take(e - pos)));
                assert(rest.skip(e - pos + 1) =~= cs@.skip(e + 1));
                assert(views(lines@.push(line)) =~= views(lines@).push(line@));
            }
            lines.push(line);
            pos = e + 1;
        } else {
            let line = substring(s, pos, len);
            proof {
                assert(line@ == rest);
                assert(views(lines@.push(line)) =~= views(lines@).push(line@));
                assert(cs@.skip(len as int) =~= Seq::<char>::empty());
            }
            lines.push(line);
            pos = len;
        }
    }
    assert(cs@.skip(len as int) =~= Seq::<char>::empty());
    assert(views(lines@) + file_lines(cs@.skip(len as int)) =~= views(lines@));
    lines
}

/// The pieces of `s` between line feeds, as `str::split('\n')` yields them.
pub fn split_newline_pieces(s: &str) -> (pieces: Vec<String>)
    ensures
        views(pieces@) == newline_pieces(s@),
{
    let cs = chars_of(s);
    let len = cs.len();
    let mut pieces: Vec<String> = Vec::new();
    let mut pos: usize = 0;
    assert(cs@.skip(0) =~= cs@);
    loop
        invariant
            len == cs@.len(),
            cs@ == s@,
            pos <= len,
            views(pieces@) + newline_pieces(cs@.skip(pos as int)) == newline_pieces(cs@),
        decreases len - pos,
    {
        let ghost rest = cs@.skip(pos as int);
        let e = find_char(&cs, '\n', pos, len);
        assert(cs@.subrange(pos as int, len as int) =~= rest);
        let piece = substring(s, pos, e);
        proof {
            assert(rest.take(e - pos) =~= cs@.subrange(pos as int, e as int));
            assert(views(pieces@.push(piece)) =~= views(pieces@).push(piece@));
        }
        pieces.push(piece);
        if e < len {
            assert(rest.skip(e - pos + 1) =~= cs@.skip(e + 1));
            pos = e + 1;
        } else {
            assert(piece@ =~= rest);
            assert(views(pieces@) =~= newline_pieces(cs@));
            return pieces;
        }
    }
}

/// The one-character text of the decimal digit `d`.
fn digit_text(d: u64) -> (r: &'static str)
    requires
        d < 10,
    ensures
        r@ == seq![digit_char(d as nat)],
{
    if d == 0 {
        proof { reveal_strlit("0"); }
        "0"
    } else if d == 1 {
        proof { reveal_strlit("1"); }
        "1"
    } else if d == 2 {
        proof { reveal_strlit("2"); }
        "2"
    } else if d == 3 {
        proof { reveal_strlit("3"); }
        "3"
    } else if d == 4 {
        proof { reveal_strlit("4"); }
        "4"
    } else if d == 5 {
        proof { reveal_strlit("5"); }
        "5"
    } else if d == 6 {
        proof { reveal_strlit("6"); }
        "6"
    } else if d == 7 {
        proof { reveal_strlit("7"); }
        "7"
    } else if d == 8 {
        proof { reveal_strlit("8"); }
        "8"
    } else {
        proof { reveal_strlit("9"); }
        "9"
    }
}

/// The decimal rendering of `n`.
pub fn u64_text(n: u64) -> (r: String)
    ensures
        r@ == decimal(n as nat),
    decreases n,
{
    if n < 10 {
        String::from_str(digit_text(n))
    } else {
        let mut r = u64_text(n / 10);
        r.append(digit_text(n % 10));
        r
    }
}

/// The rendering of a boolean, `true` or `false`.
pub fn bool_as_text(b: bool) -> (r: String)
    ensures
        r@ == bool_text(b),
{
    if b {
        String::from_str("true")
    } else {
        String::from_str("false")
    }
}

/// The concatenation of two texts.
pub fn join(a: &str, b: &str) -> (r: String)
    ensures
        r@ == a@ + b@,
{
    String::from_str(a).concat(b)
}

} // verus!
