//! The wire codec of the bulletin: articles, publish requests and query
//! responses travel as structured self-describing text. Both ends of
//! every topic use this one format; a payload of any other shape fails
//! to decode and is tolerated by dropping it.

use vstd::prelude::*;

use crate::news::{AddNews, AddNewsView, News, NewsModeView, NewsResponseView, NewsView};
use crate::text::{chars_to_string, string_to_chars};

verus! {

/// How one character appears inside a quoted string: quotes and
/// backslashes carry an escape, everything else stands as itself.
pub open spec fn esc_char(c: char) -> Seq<char> {
    if c == '"' || c == '\\' {
        seq!['\\', c]
    } else {
        seq![c]
    }
}

/// The escaped body of a quoted string.
pub open spec fn escape(s: Seq<char>) -> Seq<char>
    decreases s.len(),
{
    if s.len() == 0 {
        Seq::empty()
    } else {
        esc_char(s[0]) + escape(s.skip(1))
    }
}

/// A string field on the wire: the escaped body between two quotes.
pub open spec fn quoted(s: Seq<char>) -> Seq<char> {
    seq!['"'] + escape(s) + seq!['"']
}

/// The character of one decimal digit value.
pub open spec fn digit_char(d: int) -> char {
    ((d + 48) as u8) as char
}

/// The decimal numeral of a nonnegative value, most significant digit
/// first and without leading zeros.
pub open spec fn dec_u64(n: int) -> Seq<char>
    recommends
        n >= 0,
    decreases n,
{
    if n < 10 {
        seq![digit_char(n)]
    } else {
        dec_u64(n / 10) + seq![digit_char(n % 10)]
    }
}

/// The decimal numeral of a signed value.
pub open spec fn dec_i64(n: int) -> Seq<char> {
    if n < 0 {
        seq!['-'] + dec_u64(-n)
    } else {
        dec_u64(n)
    }
}

/// An article on the wire.
pub open spec fn news_json(n: NewsView) -> Seq<char> {
    "{\"id\":"@ + quoted(n.id) + ",\"title\":"@ + quoted(n.title) + ",\"author\":"@ + quoted(
        n.author,
    ) + ",\"description\":"@ + quoted(n.description) + ",\"date\":"@ + dec_i64(n.date) + "}"@
}

/// A publish request on the wire.
pub open spec fn add_news_json(a: AddNewsView) -> Seq<char> {
    "{\"news\":"@ + news_json(a.news) + ",\"requester_peer_id\":"@ + quoted(a.requester_peer_id)
        + "}"@
}

/// A query mode on the wire: the bare tag for `ALL`, an object with the
/// tag as its one key otherwise.
pub open spec fn mode_json(m: NewsModeView) -> Seq<char> {
    match m {
        NewsModeView::ALL => "\"ALL\""@,
        NewsModeView::ByTitle(t) => "{\"ByTitle\":"@ + quoted(t) + "}"@,
        NewsModeView::ById(i) => "{\"ById\":"@ + quoted(i) + "}"@,
        NewsModeView::ByAuthor(a) => "{\"ByAuthor\":"@ + quoted(a) + "}"@,
    }
}

/// The comma-separated articles of a response body.
pub open spec fn news_array_json(data: Seq<NewsView>) -> Seq<char>
    decreases data.len(),
{
    if data.len() == 0 {
        Seq::empty()
    } else if data.len() == 1 {
        news_json(data[0])
    } else {
        news_json(data[0]) + ","@ + news_array_json(data.skip(1))
    }
}

/// A query response on the wire.
pub open spec fn response_json(r: NewsResponseView) -> Seq<char> {
    "{\"mode\":"@ + mode_json(r.mode) + ",\"responser_peer_id\":"@ + quoted(r.responser_peer_id)
        + ",\"requester_peer_id\":"@ + quoted(r.requester_peer_id) + ",\"data\":["@
        + news_array_json(r.data) + "]}"@
}

/// Escaping one more character extends the escaped body on the right.
pub proof fn lemma_escape_push(s: Seq<char>, c: char)
    ensures
        escape(s.push(c)) == escape(s) + esc_char(c),
    decreases s.len(),
{
    if s.len() == 0 {
        let t = s.push(c);
        assert(t.len() == 1);
        assert(t[0] == c);
        assert(escape(t) == esc_char(t[0]) + escape(t.skip(1)));
        assert(t.skip(1).len() == 0);
        assert(escape(t.skip(1)) == Seq::<char>::empty());
        assert(escape(s) == Seq::<char>::empty());
        assert(escape(t) =~= escape(s) + esc_char(c));
    } else {
        let t = s.push(c);
        assert(t[0] == s[0]);
        assert(t.skip(1) =~= s.skip(1).push(c));
        lemma_escape_push(s.skip(1), c);
        assert(escape(t) == esc_char(s[0]) + escape(t.skip(1)));
        assert(escape(t.skip(1)) == escape(s.skip(1)) + esc_char(c));
        assert(escape(t) =~= escape(s) + esc_char(c));
    }
}

/// Appends the characters of `s` to `buf`.
pub fn append_str(buf: &mut Vec<char>, s: &str)
    ensures
        final(buf)@ == old(buf)@ + s@,
{
    let cs = string_to_chars(s);
    let mut i: usize = 0;
    while i < cs.len()
        invariant
            i <= cs.len(),
            cs@ == s@,
            buf@ == old(buf)@ + s@.subrange(0, i as int),
        decreases cs.len() - i,
    {
        buf.push(cs[i]);
        i = i + 1;
        assert(buf@ =~= old(buf)@ + s@.subrange(0, i as int));
    }
    assert(buf@ =~= old(buf)@ + s@);
}

/// Appends `s` as a quoted, escaped string field.
pub fn append_quoted(buf: &mut Vec<char>, s: &str)
    ensures
        final(buf)@ == old(buf)@ + quoted(s@),
{
    buf.push('"');
    let cs = string_to_chars(s);
    let mut i: usize = 0;
    while i < cs.len()
        invariant
            i <= cs.len(),
            cs@ == s@,
            buf@ == old(buf)@ + seq!['"'] + escape(s@.subrange(0, i as int)),
        decreases cs.len() - i,
    {
        let c = cs[i];
        if c == '"' || c == '\\' {
            buf.push('\\');
        }
        buf.push(c);
        proof {
            lemma_escape_push(s@.subrange(0, i as int), s@[i as int]);
            assert(s@.subrange(0, i + 1) =~= s@.subrange(0, i as int).push(s@[i as int]));
            assert(buf@ =~= old(buf)@ + seq!['"'] + escape(s@.subrange(0, i + 1)));
        }
        i = i + 1;
    }
    buf.push('"');
    proof {
        assert(s@.subrange(0, s@.len() as int) =~= s@);
        assert(buf@ =~= old(buf)@ + quoted(s@));
    }
}

/// Appends the decimal numeral of `n`.
pub fn append_u64(buf: &mut Vec<char>, n: u64)
    ensures
        final(buf)@ == old(buf)@ + dec_u64(n as int),
    decreases n,
{
    if n >= 10 {
        append_u64(buf, n / 10);
    }
    let d: u8 = (n % 10) as u8;
    buf.push((d + 48) as char);
    assert(buf@ =~= old(buf)@ + dec_u64(n as int));
}

/// Appends the decimal numeral of `n`, with a sign when negative.
pub fn append_i64(buf: &mut Vec<char>, n: i64)
    ensures
        final(buf)@ == old(buf)@ + dec_i64(n as int),
{
    if n < 0 {
        buf.push('-');
        let wide: i128 = -(n as i128);
        assert(0 <= wide <= u64::MAX);
        append_u64(buf, wide as u64);
        assert(buf@ =~= old(buf)@ + dec_i64(n as int));
    } else {
        append_u64(buf, n as u64);
    }
}

/// Appends an article in its wire form.
pub fn append_news(buf: &mut Vec<char>, n: &News)
    ensures
        final(buf)@ == old(buf)@ + news_json(n@),
{
    append_str(buf, "{\"id\":");
    append_quoted(buf, self_str(&n.id));
    append_str(buf, ",\"title\":");
    append_quoted(buf, self_str(&n.title));
    append_str(buf, ",\"author\":");
    append_quoted(buf, self_str(&n.author));
    append_str(buf, ",\"description\":");
    append_quoted(buf, self_str(&n.description));
    append_str(buf, ",\"date\":");
    append_i64(buf, n.date);
    append_str(buf, "}");
    assert(buf@ =~= old(buf)@ + news_json(n@));
}

/// The borrowed characters of a `String`.
fn self_str(s: &String) -> (r: &str)
    ensures
        r@ == s@,
{
    s.as_str()
}

/// The serialized form of an article: what the record store holds.
pub fn encode_news(n: &News) -> (r: String)
    ensures
        r@ == news_json(n@),
{
    let mut buf: Vec<char> = Vec::new();
    append_news(&mut buf, n);
    chars_to_string(&buf)
}

/// The wire form of a publish request.
pub fn encode_add_news(a: &AddNews) -> (r: String)
    ensures
        r@ == add_news_json(a@),
{
    let mut buf: Vec<char> = Vec::new();
    append_str(&mut buf, "{\"news\":");
    append_news(&mut buf, &a.news);
    append_str(&mut buf, ",\"requester_peer_id\":");
    append_quoted(&mut buf, self_str(&a.requester_peer_id));
    append_str(&mut buf, "}");
    assert(buf@ =~= add_news_json(a@));
    chars_to_string(&buf)
}

/// Matches the exact characters of `pat` at position `i`; yields the
/// position after the match.
pub open spec fn sp_lit(t: Seq<char>, i: int, pat: Seq<char>) -> Option<int> {
    if 0 <= i && i + pat.len() <= t.len() && t.subrange(i, i + pat.len()) == pat {
        Some(i + pat.len())
    } else {
        None
    }
}

pub(crate) fn p_lit(t: &Vec<char>, i: usize, pat: &str) -> (r: Option<usize>)
    ensures
        match r {
            Some(j) => sp_lit(t@, i as int, pat@) == Some(j as int) && j <= t@.len(),
            None => sp_lit(t@, i as int, pat@) is None,
        },
{
    let cs = string_to_chars(pat);
    let n = t.len();
    if i > n || cs.len() > n - i {
        return None;
    }
    let mut k: usize = 0;
    while k < cs.len()
        invariant
            n == t@.len(),
            i + cs.len() <= n,
            cs@ == pat@,
            k <= cs.len(),
            t@.subrange(i as int, i + k) == pat@.subrange(0, k as int),
        decreases cs.len() - k,
    {
        if t[i + k] != cs[k] {
            proof {
                assert(t@.subrange(i as int, i + pat@.len())[k as int] == t@[i + k]);
            }
            return None;
        }
        k = k + 1;
        assert(t@.subrange(i as int, i + k) =~= pat@.subrange(0, k as int));
    }
    proof {
        assert(pat@.subrange(0, pat@.len() as int) =~= pat@);
    }
    Some(i + cs.len())
}

/// Reads the body of a quoted string from position `i` up to and past
/// its closing quote, undoing the escapes; yields the content and the
/// position after the closing quote.
pub open spec fn sp_qbody(t: Seq<char>, i: int) -> Option<(Seq<char>, int)>
    decreases t.len() - i,
{
    if i < 0 || i >= t.len() {
        None
    } else if t[i] == '"' {
        Some((Seq::empty(), i + 1))
    } else if t[i] == '\\' {
        if i + 1 < t.len() && (t[i + 1] == '"' || t[i + 1] == '\\') {
            match sp_qbody(t, i + 2) {
                Some(p) => Some((seq![t[i + 1]] + p.0, p.1)),
                None => None,
            }
        } else {
            None
        }
    } else {
        match sp_qbody(t, i + 1) {
            Some(p) => Some((seq![t[i]] + p.0, p.1)),
            None => None,
        }
    }
}

fn p_qbody(t: &Vec<char>, start: usize) -> (r: Option<(Vec<char>, usize)>)
    ensures
        match r {
            Some(p) => sp_qbody(t@, start as int) == Some((p.0@, p.1 as int)) && p.1 <= t@.len(),
            None => sp_qbody(t@, start as int) is None,
        },
{
    if start >= t.len() {
        return None;
    }
    let mut acc: Vec<char> = Vec::new();
    let mut i: usize = start;
    loop
        invariant
            start <= i <= t@.len() + 1,
            (match sp_qbody(t@, i as int) {
                Some(p) => sp_qbody(t@, start as int) == Some((acc@ + p.0, p.1)),
                None => sp_qbody(t@, start as int) is None,
            }),
        decreases t@.len() + 2 - i,
    {
        if i >= t.len() {
            return None;
        }
        let c = t[i];
        if c == '"' {
            proof {
                assert(acc@ + Seq::<char>::empty() =~= acc@);
            }
            return Some((acc, i + 1));
        } else if c == '\\' {
            if i + 1 < t.len() {
                let d = t[i + 1];
                if d == '"' || d == '\\' {
                    let ghost acc0 = acc@;
                    let ghost i0 = i as int;
                    acc.push(d);
                    i = i + 2;
                    proof {
                        match sp_qbody(t@, i as int) {
                            Some(p) => {
                                assert(acc0 + (seq![d] + p.0) =~= acc@ + p.0);
                            },
                            None => {},
                        }
                    }
                } else {
                    return None;
                }
            } else {
                return None;
            }
        } else {
            let ghost acc0 = acc@;
            acc.push(c);
            i = i + 1;
            proof {
                match sp_qbody(t@, i as int) {
                    Some(p) => {
                        assert(acc0 + (seq![c] + p.0) =~= acc@ + p.0);
                    },
                    None => {},
                }
            }
        }
    }
}

/// Reads a complete quoted string starting at `i`.
pub open spec fn sp_qstr(t: Seq<char>, i: int) -> Option<(Seq<char>, int)> {
    if 0 <= i < t.len() && t[i] == '"' {
        sp_qbody(t, i + 1)
    } else {
        None
    }
}

fn p_qstr(t: &Vec<char>, i: usize) -> (r: Option<(Vec<char>, usize)>)
    ensures
        match r {
            Some(p) => sp_qstr(t@, i as int) == Some((p.0@, p.1 as int)) && p.1 <= t@.len(),
            None => sp_qstr(t@, i as int) is None,
        },
{
    if i < t.len() && t[i] == '"' {
        p_qbody(t, i + 1)
    } else {
        None
    }
}

/// Is `c` a decimal digit?
pub open spec fn is_digit(c: char) -> bool {
    48 <= c as int <= 57
}

/// The value of a digit character.
pub open spec fn digit_val(c: char) -> int {
    c as int - 48
}

/// The first position at or after `i` that does not hold a digit.
pub open spec fn digits_end(t: Seq<char>, i: int) -> int
    decreases t.len() - i,
{
    if 0 <= i && i < t.len() && is_digit(t[i]) {
        digits_end(t, i + 1)
    } else {
        i
    }
}

/// A digits run never moves backwards and stays within the text.
pub proof fn lemma_digits_end_bounds(t: Seq<char>, i: int)
    requires
        0 <= i <= t.len(),
    ensures
        i <= digits_end(t, i) <= t.len(),
    decreases t.len() - i,
{
    if i < t.len() && is_digit(t[i]) {
        lemma_digits_end_bounds(t, i + 1);
    }
}

/// The value of the digits `t[i..j]`, most significant first.
pub open spec fn sp_digits_val(t: Seq<char>, i: int, j: int) -> int
    decreases j - i,
{
    if i >= j {
        0
    } else {
        sp_digits_val(t, i, j - 1) * 10 + digit_val(t[j - 1])
    }
}

/// Ten to the `n`.
pub open spec fn pow10(n: nat) -> int
    decreases n,
{
    if n == 0 {
        1
    } else {
        10 * pow10((n - 1) as nat)
    }
}

/// Reads a decimal integer token at `i`: an optional sign, then one to
/// nineteen digits without a leading zero, with a value that fits a
/// signed 64-bit integer. Yields the value and the position after it.
pub open spec fn sp_int(t: Seq<char>, i: int) -> Option<(int, int)> {
    if !(0 <= i < t.len()) {
        None
    } else {
        let neg = t[i] == '-';
        let k = if neg {
            i + 1
        } else {
            i
        };
        let e = digits_end(t, k);
        if e == k {
            None
        } else if e - k > 19 {
            None
        } else if t[k] == '0' && e != k + 1 {
            None
        } else {
            let v = sp_digits_val(t, k, e);
            let sv = if neg {
                -v
            } else {
                v
            };
            if neg && v == 0 {
                None
            } else if sv < i64::MIN as int || sv > i64::MAX as int {
                None
            } else {
                Some((sv, e))
            }
        }
    }
}

fn exec_is_digit(c: char) -> (r: bool)
    ensures
        r == is_digit(c),
{
    let u = c as u32;
    48 <= u && u <= 57
}

#[verifier::loop_isolation(false)]
pub(crate) fn p_i64(t: &Vec<char>, i: usize) -> (r: Option<(i64, usize)>)
    ensures
        match r {
            Some(p) => sp_int(t@, i as int) == Some((p.0 as int, p.1 as int)) && p.1 <= t@.len(),
            None => sp_int(t@, i as int) is None,
        },
{
    if i >= t.len() {
        return None;
    }
    let neg = t[i] == '-';
    let k = if neg {
        i + 1
    } else {
        i
    };
    let mut j = k;
    let mut acc: u64 = 0;
    proof {
        lemma_digits_end_bounds(t@, k as int);
    }
    while j < t.len() && exec_is_digit(t[j])
        invariant
            i < t@.len(),
            k <= j <= t@.len(),
            j - k <= 19,
            digits_end(t@, k as int) == digits_end(t@, j as int),
            acc == sp_digits_val(t@, k as int, j as int),
            acc < pow10((j - k) as nat),
            forall|m: int| k <= m < j ==> is_digit(#[trigger] t@[m]),
        decreases t@.len() - j,
    {
        let c = t[j];
        if j - k == 19 {
            proof {
                assert(is_digit(t@[j as int]));
                assert(digits_end(t@, j as int) == digits_end(t@, j + 1));
                lemma_digits_end_bounds(t@, j + 1);
                let e = digits_end(t@, k as int);
                assert(e >= j + 1);
                assert(sp_int(t@, i as int) is None);
            }
            return None;
        }
        let d: u64 = (c as u32 - 48) as u64;
        proof {
            assert(pow10(19) == 10000000000000000000) by {
                reveal_with_fuel(pow10, 20);
            }
            assert(acc * 10 + d < pow10((j - k + 1) as nat));
            assert(pow10((j - k + 1) as nat) <= pow10(19)) by {
                lemma_pow10_mono((j - k + 1) as nat, 19);
            }
        }
        acc = acc * 10 + d;
        j = j + 1;
    }
    proof {
        assert(digits_end(t@, j as int) == j);
    }
    if j == k {
        return None;
    }
    if t[k] == '0' && j != k + 1 {
        return None;
    }
    if neg {
        if acc == 0 {
            return None;
        }
        if acc > 9223372036854775808u64 {
            return None;
        }
        if acc == 9223372036854775808u64 {
            return Some((i64::MIN, j));
        }
        return Some((-(acc as i64), j));
    }
    if acc > 9223372036854775807u64 {
        return None;
    }
    Some((acc as i64, j))
}

/// Reads an article object at `i`.
pub open spec fn sp_news(t: Seq<char>, i: int) -> Option<(NewsView, int)> {
    match sp_lit(t, i, "{\"id\":"@) {
        None => None,
        Some(i1) => match sp_qstr(t, i1) {
            None => None,
            Some((id, i2)) => match sp_lit(t, i2, ",\"title\":"@) {
                None => None,
                Some(i3) => match sp_qstr(t, i3) {
                    None => None,
                    Some((title, i4)) => match sp_lit(t, i4, ",\"author\":"@) {
                        None => None,
                        Some(i5) => match sp_qstr(t, i5) {
                            None => None,
                            Some((author, i6)) => match sp_lit(t, i6, ",\"description\":"@) {
                                None => None,
                                Some(i7) => match sp_qstr(t, i7) {
                                    None => None,
                                    Some((description, i8)) => match sp_lit(t, i8, ",\"date\":"@) {
                                        None => None,
                                        Some(i9) => match sp_int(t, i9) {
                                            None => None,
                                            Some((date, i10)) => match sp_lit(t, i10, "}"@) {
                                                None => None,
                                                Some(i11) => Some(
                                                    (
                                                        NewsView {
                                                            id,
                                                            title,
                                                            author,
                                                            description,
                                                            date,
                                                        },
                                                        i11,
                                                    ),
                                                ),
                                            },
                                        },
                                    },
                                },
                            },
                        },
                    },
                },
            },
        },
    }
}

fn p_news(t: &Vec<char>, i: usize) -> (r: Option<(News, usize)>)
    ensures
        match r {
            Some(p) => sp_news(t@, i as int) == Some((p.0@, p.1 as int)) && p.1 <= t@.len(),
            None => sp_news(t@, i as int) is None,
        },
{
    let i1 = match p_lit(t, i, "{\"id\":") {
        Some(j) => j,
        None => {
            return None;
        },
    };
    let (id, i2) = match p_qstr(t, i1) {
        Some(p) => p,
        None => {
            return None;
        },
    };
    let i3 = match p_lit(t, i2, ",\"title\":") {
        Some(j) => j,
        None => {
            return None;
        },
    };
    let (title, i4) = match p_qstr(t, i3) {
        Some(p) => p,
        None => {
            return None;
        },
    };
    let i5 = match p_lit(t, i4, ",\"author\":") {
        Some(j) => j,
        None => {
            return None;
        },
    };
    let (author, i6) = match p_qstr(t, i5) {
        Some(p) => p,
        None => {
            return None;
        },
    };
    let i7 = match p_lit(t, i6, ",\"description\":") {
        Some(j) => j,
        None => {
            return None;
        },
    };
    let (description, i8) = match p_qstr(t, i7) {
        Some(p) => p,
        None => {
            return None;
        },
    };
    let i9 = match p_lit(t, i8, ",\"date\":") {
        Some(j) => j,
        None => {
            return None;
        },
    };
    let (date, i10) = match p_i64(t, i9) {
        Some(p) => p,
        None => {
            return None;
        },
    };
    let i11 = match p_lit(t, i10, "}") {
        Some(j) => j,
        None => {
            return None;
        },
    };
    let n = News {
        id: chars_to_string(&id),
        title: chars_to_string(&title),
        author: chars_to_string(&author),
        description: chars_to_string(&description),
        date,
    };
    Some((n, i11))
}

/// Reads a publish request object at `i`.
pub open spec fn sp_add_news(t: Seq<char>, i: int) -> Option<(AddNewsView, int)> {
    match sp_lit(t, i, "{\"news\":"@) {
        None => None,
        Some(i1) => match sp_news(t, i1) {
            None => None,
            Some((news, i2)) => match sp_lit(t, i2, ",\"requester_peer_id\":"@) {
                None => None,
                Some(i3) => match sp_qstr(t, i3) {
                    None => None,
                    Some((requester, i4)) => match sp_lit(t, i4, "}"@) {
                        None => None,
                        Some(i5) => Some(
                            (AddNewsView { news, requester_peer_id: requester }, i5),
                        ),
                    },
                },
            },
        },
    }
}

fn p_add_news(t: &Vec<char>, i: usize) -> (r: Option<(AddNews, usize)>)
    ensures
        match r {
            Some(p) => sp_add_news(t@, i as int) == Some((p.0@, p.1 as int)) && p.1 <= t@.len(),
            None => sp_add_news(t@, i as int) is None,
        },
{
    let i1 = match p_lit(t, i, "{\"news\":") {
        Some(j) => j,
        None => {
            return None;
        },
    };
    let (news, i2) = match p_news(t, i1) {
        Some(p) => p,
        None => {
            return None;
        },
    };
    let i3 = match p_lit(t, i2, ",\"requester_peer_id\":") {
        Some(j) => j,
        None => {
            return None;
        },
    };
    let (requester, i4) = match p_qstr(t, i3) {
        Some(p) => p,
        None => {
            return None;
        },
    };
    let i5 = match p_lit(t, i4, "}") {
        Some(j) => j,
        None => {
            return None;
        },
    };
    Some((AddNews { news, requester_peer_id: chars_to_string(&requester) }, i5))
}

/// The article whose serialized form is exactly `t`, if any.
pub open spec fn news_of(t: Seq<char>) -> Option<NewsView> {
    match sp_news(t, 0) {
        Some((n, j)) => if j == t.len() {
            Some(n)
        } else {
            None
        },
        None => None,
    }
}

/// The publish request whose wire form is exactly `t`, if any.
pub open spec fn add_news_of(t: Seq<char>) -> Option<AddNewsView> {
    match sp_add_news(t, 0) {
        Some((a, j)) => if j == t.len() {
            Some(a)
        } else {
            None
        },
        None => None,
    }
}

/// Decodes a serialized article; any text of another shape yields
/// `None`.
pub fn decode_news(s: &str) -> (r: Option<News>)
    ensures
        match r {
            Some(n) => news_of(s@) == Some(n@),
            None => news_of(s@) is None,
        },
{
    let t = string_to_chars(s);
    match p_news(&t, 0) {
        Some((n, j)) => {
            if j == t.len() {
                Some(n)
            } else {
                None
            }
        },
        None => None,
    }
}

/// Decodes a publish request from a gossip payload; any payload of
/// another shape yields `None`.
pub fn decode_add_news(s: &str) -> (r: Option<AddNews>)
    ensures
        match r {
            Some(a) => add_news_of(s@) == Some(a@),
            None => add_news_of(s@) is None,
        },
{
    let t = string_to_chars(s);
    match p_add_news(&t, 0) {
        Some((a, j)) => {
            if j == t.len() {
                Some(a)
            } else {
                None
            }
        },
        None => None,
    }
}

/// Appending one more article extends the array body on the right.
pub proof fn lemma_news_array_push(data: Seq<NewsView>, n: NewsView)
    ensures
        news_array_json(data.push(n)) == if data.len() == 0 {
            news_json(n)
        } else {
            news_array_json(data) + ","@ + news_json(n)
        },
    decreases data.len(),
{
    let t = data.push(n);
    if data.len() == 0 {
        assert(t.len() == 1);
        assert(t[0] == n);
        assert(news_array_json(t) == news_json(n));
    } else if data.len() == 1 {
        assert(t.len() == 2);
        assert(t[0] == data[0]);
        assert(t.skip(1) =~= seq![n]);
        assert(news_array_json(t.skip(1)) == news_json(n));
    } else {
        assert(t[0] == data[0]);
        assert(t.skip(1) =~= data.skip(1).push(n));
        lemma_news_array_push(data.skip(1), n);
        assert(news_array_json(t) =~= news_array_json(data) + ","@ + news_json(n));
    }
}

/// The wire form of a query response.
#[verifier::loop_isolation(false)]
pub fn encode_response(r: &crate::news::NewsResponse) -> (s: String)
    ensures
        s@ == response_json(r@),
{
    let mut buf: Vec<char> = Vec::new();
    append_str(&mut buf, "{\"mode\":");
    match &r.mode {
        crate::news::NewsMode::ALL => {
            append_str(&mut buf, "\"ALL\"");
        },
        crate::news::NewsMode::ByTitle(q) => {
            append_str(&mut buf, "{\"ByTitle\":");
            append_quoted(&mut buf, self_str(q));
            append_str(&mut buf, "}");
        },
        crate::news::NewsMode::ById(q) => {
            append_str(&mut buf, "{\"ById\":");
            append_quoted(&mut buf, self_str(q));
            append_str(&mut buf, "}");
        },
        crate::news::NewsMode::ByAuthor(q) => {
            append_str(&mut buf, "{\"ByAuthor\":");
            append_quoted(&mut buf, self_str(q));
            append_str(&mut buf, "}");
        },
    }
    proof {
        assert(buf@ =~= "{\"mode\":"@ + mode_json(r@.mode));
    }
    append_str(&mut buf, ",\"responser_peer_id\":");
    append_quoted(&mut buf, self_str(&r.responser_peer_id));
    append_str(&mut buf, ",\"requester_peer_id\":");
    append_quoted(&mut buf, self_str(&r.requester_peer_id));
    append_str(&mut buf, ",\"data\":[");
    let ghost head = buf@;
    let mut idx: usize = 0;
    while idx < r.data.len()
        invariant
            idx <= r.data.len(),
            buf@ == head + news_array_json(r@.data.subrange(0, idx as int)),
        decreases r.data.len() - idx,
    {
        if idx > 0 {
            append_str(&mut buf, ",");
        }
        append_news(&mut buf, &r.data[idx]);
        proof {
            lemma_news_array_push(r@.data.subrange(0, idx as int), r@.data[idx as int]);
            assert(r@.data.subrange(0, idx + 1) =~= r@.data.subrange(0, idx as int).push(
                r@.data[idx as int],
            ));
            assert(buf@ =~= head + news_array_json(r@.data.subrange(0, idx + 1)));
        }
        idx = idx + 1;
    }
    proof {
        assert(r@.data.subrange(0, r.data@.len() as int) =~= r@.data);
    }
    append_str(&mut buf, "]}");
    proof {
        assert(buf@ =~= response_json(r@));
    }
    chars_to_string(&buf)
}

/// `pow10` grows with its argument.
pub proof fn lemma_pow10_mono(a: nat, b: nat)
    requires
        a <= b,
    ensures
        pow10(a) <= pow10(b),
        pow10(a) >= 1,
    decreases b,
{
    if b > 0 {
        if a == b {
            lemma_pow10_mono((b - 1) as nat, (b - 1) as nat);
        } else {
            lemma_pow10_mono(a, (b - 1) as nat);
        }
        assert(pow10(b) == 10 * pow10((b - 1) as nat));
    }
}


/// Reading a quoted body at the start of an escaped string undoes the
/// escaping exactly and stops at the closing quote.
proof fn lemma_qbody_round(t: Seq<char>, i: int, s: Seq<char>, rest: Seq<char>)
    requires
        0 <= i,
        t.len() == i + escape(s).len() + 1 + rest.len(),
        t.subrange(i, t.len() as int) == escape(s) + seq!['"'] + rest,
    ensures
        sp_qbody(t, i) == Some((s, i + escape(s).len() + 1)),
    decreases s.len(),
{
    let suf = t.subrange(i, t.len() as int);
    if s.len() == 0 {
        assert(escape(s).len() == 0);
        assert(t[i] == suf[0]);
        assert(suf[0] == '"');
        assert(sp_qbody(t, i) == Some((Seq::<char>::empty(), i + 1)));
        assert(s =~= Seq::<char>::empty());
    } else {
        let c = s[0];
        assert(escape(s) == esc_char(c) + escape(s.skip(1)));
        if c == '"' || c == '\\' {
            assert(esc_char(c) =~= seq!['\\', c]);
            assert(t[i] == suf[0]);
            assert(suf[0] == '\\');
            assert(t[i + 1] == suf[1]);
            assert(suf[1] == c);
            let tail = escape(s.skip(1)) + seq!['"'] + rest;
            assert(suf =~= seq!['\\', c] + tail);
            assert(t.subrange(i + 2, t.len() as int) =~= suf.skip(2));
            assert(suf.skip(2) =~= tail);
            lemma_qbody_round(t, i + 2, s.skip(1), rest);
            assert(seq![c] + s.skip(1) =~= s);
            assert(escape(s).len() == 2 + escape(s.skip(1)).len());
        } else {
            assert(esc_char(c) =~= seq![c]);
            assert(t[i] == suf[0]);
            assert(suf[0] == c);
            let tail = escape(s.skip(1)) + seq!['"'] + rest;
            assert(suf =~= seq![c] + tail);
            assert(t.subrange(i + 1, t.len() as int) =~= suf.skip(1));
            assert(suf.skip(1) =~= tail);
            lemma_qbody_round(t, i + 1, s.skip(1), rest);
            assert(seq![c] + s.skip(1) =~= s);
            assert(escape(s).len() == 1 + escape(s.skip(1)).len());
        }
    }
}

/// Reading a quoted string at the start of its wire form undoes the
/// quoting exactly.
proof fn lemma_qstr_round(t: Seq<char>, i: int, s: Seq<char>, rest: Seq<char>)
    requires
        0 <= i,
        t.len() == i + quoted(s).len() + rest.len(),
        t.subrange(i, t.len() as int) == quoted(s) + rest,
    ensures
        sp_qstr(t, i) == Some((s, i + quoted(s).len())),
        t.subrange(i + quoted(s).len(), t.len() as int) == rest,
{
    let suf = t.subrange(i, t.len() as int);
    assert forall|j: int| 0 <= j < rest.len() implies #[trigger] t.subrange(
        i + quoted(s).len(),
        t.len() as int,
    )[j] == rest[j] by {
        assert(t.subrange(i + quoted(s).len(), t.len() as int)[j] == t[i + quoted(s).len() + j]);
        assert(t[i + quoted(s).len() + j] == suf[quoted(s).len() + j]);
        assert(suf[quoted(s).len() + j] == rest[j]);
    }
    assert(t.subrange(i + quoted(s).len(), t.len() as int) =~= rest);
    assert(t[i] == suf[0]);
    assert(suf[0] == '"');
    let tail = escape(s) + seq!['"'] + rest;
    assert(suf =~= seq!['"'] + tail);
    assert(t.subrange(i + 1, t.len() as int) =~= suf.skip(1));
    assert(suf.skip(1) =~= tail);
    lemma_qbody_round(t, i + 1, s, rest);
}


/// Every character of a numeral is a digit, and only the numeral of
/// zero begins with a zero.
proof fn lemma_dec_u64_digits(n: int)
    requires
        0 <= n,
    ensures
        dec_u64(n).len() >= 1,
        forall|j: int| 0 <= j < dec_u64(n).len() ==> is_digit(#[trigger] dec_u64(n)[j]),
        (dec_u64(n)[0] == '0' <==> n == 0),
    decreases n,
{
    if n < 10 {
        assert(dec_u64(n) =~= seq![digit_char(n)]);
        assert(digit_char(n) as int == n + 48);
    } else {
        lemma_dec_u64_digits(n / 10);
        assert(digit_char(n % 10) as int == n % 10 + 48);
        assert(dec_u64(n) == dec_u64(n / 10) + seq![digit_char(n % 10)]);
        assert(dec_u64(n)[0] == dec_u64(n / 10)[0]);
        assert forall|j: int| 0 <= j < dec_u64(n).len() implies is_digit(
            #[trigger] dec_u64(n)[j],
        ) by {
            if j < dec_u64(n / 10).len() {
                assert(dec_u64(n)[j] == dec_u64(n / 10)[j]);
            } else {
                assert(dec_u64(n)[j] == digit_char(n % 10));
            }
        }
    }
}

/// A value below `pow10(k)` needs at most `k` digits.
proof fn lemma_dec_u64_len(n: int, k: nat)
    requires
        0 <= n < pow10(k),
        k >= 1,
    ensures
        dec_u64(n).len() <= k,
    decreases n,
{
    if n < 10 {
    } else {
        assert(pow10(k) == 10 * pow10((k - 1) as nat));
        assert(n / 10 < pow10((k - 1) as nat));
        assert(k - 1 >= 1) by {
            lemma_pow10_mono(1nat, 1nat);
            if k == 1 {
                assert(pow10(1nat) == 10);
            }
        }
        lemma_dec_u64_len(n / 10, (k - 1) as nat);
    }
}

/// A run of digits followed by a non-digit ends exactly there.
proof fn lemma_digits_end_run(t: Seq<char>, i: int, e: int)
    requires
        0 <= i <= e <= t.len(),
        forall|j: int| i <= j < e ==> is_digit(#[trigger] t[j]),
        e == t.len() || !is_digit(t[e]),
    ensures
        digits_end(t, i) == e,
    decreases e - i,
{
    if i < e {
        lemma_digits_end_run(t, i + 1, e);
    }
}

/// Parsing the digits of a numeral back yields the value.
proof fn lemma_digits_val_of_dec(t: Seq<char>, i: int, n: int)
    requires
        0 <= i,
        0 <= n,
        i + dec_u64(n).len() <= t.len(),
        t.subrange(i, i + dec_u64(n).len() as int) == dec_u64(n),
    ensures
        sp_digits_val(t, i, i + dec_u64(n).len() as int) == n,
    decreases n,
{
    let d = dec_u64(n);
    let e = i + d.len() as int;
    if n < 10 {
        assert(d =~= seq![digit_char(n)]);
        assert(t[i] == t.subrange(i, e)[0]);
        assert(t[i] == digit_char(n));
        assert(digit_char(n) as int == n + 48);
        assert(sp_digits_val(t, i, e) == sp_digits_val(t, i, e - 1) * 10 + digit_val(t[e - 1]));
        assert(sp_digits_val(t, i, i) == 0);
    } else {
        let hd = dec_u64(n / 10);
        assert(d == hd + seq![digit_char(n % 10)]);
        assert(t.subrange(i, i + hd.len() as int) =~= hd);
        lemma_digits_val_of_dec(t, i, n / 10);
        assert(t[e - 1] == t.subrange(i, e)[d.len() - 1]);
        assert(t[e - 1] == digit_char(n % 10));
        assert(digit_char(n % 10) as int == n % 10 + 48);
        assert(sp_digits_val(t, i, e) == sp_digits_val(t, i, e - 1) * 10 + digit_val(t[e - 1]));
        assert(n / 10 * 10 + n % 10 == n);
    }
}

/// Reading an integer token at the start of a signed numeral yields the
/// value and stops where the numeral ends, provided no digit follows.
proof fn lemma_sp_int_round(t: Seq<char>, i: int, n: int, rest: Seq<char>)
    requires
        0 <= i,
        i64::MIN as int <= n <= i64::MAX as int,
        t.len() == i + dec_i64(n).len() + rest.len(),
        t.subrange(i, t.len() as int) == dec_i64(n) + rest,
        rest.len() == 0 || !is_digit(rest[0]),
    ensures
        sp_int(t, i) == Some((n, i + dec_i64(n).len() as int)),
        t.subrange(i + dec_i64(n).len(), t.len() as int) == rest,
{
    let suf = t.subrange(i, t.len() as int);
    assert forall|j: int| 0 <= j < rest.len() implies #[trigger] t.subrange(
        i + dec_i64(n).len(),
        t.len() as int,
    )[j] == rest[j] by {
        assert(t.subrange(i + dec_i64(n).len(), t.len() as int)[j] == t[i + dec_i64(n).len() + j]);
        assert(t[i + dec_i64(n).len() + j] == suf[dec_i64(n).len() + j]);
        assert(suf[dec_i64(n).len() + j] == rest[j]);
    }
    assert(t.subrange(i + dec_i64(n).len(), t.len() as int) =~= rest);
    let m = if n < 0 {
        -n
    } else {
        n
    };
    lemma_dec_u64_digits(m);
    assert(pow10(19) == 10000000000000000000) by {
        reveal_with_fuel(pow10, 20);
    }
    lemma_dec_u64_len(m, 19);
    let k = if n < 0 {
        i + 1
    } else {
        i
    };
    let e = k + dec_u64(m).len() as int;
    if n < 0 {
        assert(dec_i64(n) == seq!['-'] + dec_u64(m));
        assert(t[i] == suf[0]);
        assert(suf[0] == '-');
        let tail = dec_u64(m) + rest;
        assert(suf =~= seq!['-'] + tail);
        assert forall|j: int| 0 <= j < dec_u64(m).len() implies #[trigger] t.subrange(k, e)[j]
            == dec_u64(m)[j] by {
            assert(t.subrange(k, e)[j] == t[k + j]);
            assert(t[k + j] == suf[1 + j]);
            assert(suf[1 + j] == tail[j]);
            assert(tail[j] == dec_u64(m)[j]);
        }
        assert(t.subrange(k, e) =~= dec_u64(m));
    } else {
        assert(dec_i64(n) == dec_u64(m));
        assert(t.subrange(k, e) =~= dec_u64(m));
        assert(t[i] == suf[0]);
        assert(suf[0] == dec_u64(m)[0]);
        assert(is_digit(t[i]));
        assert(t[i] != '-') by {
            assert(48 <= t[i] as int <= 57);
            assert('-' as int == 45);
        }
    }
    assert forall|j: int| k <= j < e implies is_digit(#[trigger] t[j]) by {
        assert(t[j] == t.subrange(k, e)[j - k]);
        assert(is_digit(dec_u64(m)[j - k]));
    }
    assert(e == t.len() || !is_digit(t[e])) by {
        if e < t.len() {
            assert(t[e] == suf[e - i]);
            assert(suf[e - i] == rest[0]);
        }
    }
    lemma_digits_end_run(t, k, e);
    assert(t[k] == t.subrange(k, e)[0]);
    assert(t[k] == dec_u64(m)[0]);
    assert(t[k] == '0' <==> m == 0);
    lemma_digits_val_of_dec(t, k, m);
    if n < 0 {
        assert(m != 0);
        assert(t[k] != '0');
    } else {
        if m == 0 {
            assert(dec_u64(0int) =~= seq![digit_char(0int)]);
            assert(e == k + 1);
        } else {
            assert(t[k] != '0');
        }
    }
}


/// A fixed piece of the wire form matches itself and leaves the rest.
proof fn lemma_sp_lit_at(t: Seq<char>, i: int, pat: Seq<char>, rest: Seq<char>)
    requires
        0 <= i,
        t.len() == i + pat.len() + rest.len(),
        t.subrange(i, t.len() as int) == pat + rest,
    ensures
        sp_lit(t, i, pat) == Some(i + pat.len() as int),
        t.subrange(i + pat.len(), t.len() as int) == rest,
{
    let suf = t.subrange(i, t.len() as int);
    assert forall|j: int| 0 <= j < pat.len() implies #[trigger] t.subrange(
        i,
        i + pat.len() as int,
    )[j] == pat[j] by {
        assert(t.subrange(i, i + pat.len() as int)[j] == t[i + j]);
        assert(t[i + j] == suf[j]);
        assert(suf[j] == pat[j]);
    }
    assert(t.subrange(i, i + pat.len() as int) =~= pat);
    assert forall|j: int| 0 <= j < rest.len() implies #[trigger] t.subrange(
        i + pat.len(),
        t.len() as int,
    )[j] == rest[j] by {
        assert(t.subrange(i + pat.len(), t.len() as int)[j] == t[i + pat.len() + j]);
        assert(t[i + pat.len() + j] == suf[pat.len() + j]);
        assert(suf[pat.len() + j] == rest[j]);
    }
    assert(t.subrange(i + pat.len(), t.len() as int) =~= rest);
}

/// Reading an article at the start of its wire form yields the article
/// back and stops exactly where the wire form ends.
#[verifier::rlimit(100)]
proof fn lemma_sp_news_round(t: Seq<char>, i: int, v: NewsView, rest: Seq<char>)
    requires
        0 <= i,
        i64::MIN as int <= v.date <= i64::MAX as int,
        t.len() == i + news_json(v).len() + rest.len(),
        t.subrange(i, t.len() as int) == news_json(v) + rest,
    ensures
        sp_news(t, i) == Some((v, i + news_json(v).len() as int)),
        t.subrange(i + news_json(v).len(), t.len() as int) == rest,
{
    let l1 = "{\"id\":"@;
    let l2 = ",\"title\":"@;
    let l3 = ",\"author\":"@;
    let l4 = ",\"description\":"@;
    let l5 = ",\"date\":"@;
    let l6 = "}"@;
    let s1 = quoted(v.id) + l2 + quoted(v.title) + l3 + quoted(v.author) + l4 + quoted(
        v.description,
    ) + l5 + dec_i64(v.date) + l6 + rest;
    assert(t.subrange(i, t.len() as int) =~= l1 + s1);
    lemma_sp_lit_at(t, i, l1, s1);
    let i1 = i + l1.len() as int;
    let s2 = l2 + quoted(v.title) + l3 + quoted(v.author) + l4 + quoted(v.description) + l5
        + dec_i64(v.date) + l6 + rest;
    assert(s1 =~= quoted(v.id) + s2);
    lemma_qstr_round(t, i1, v.id, s2);
    let i2 = i1 + quoted(v.id).len() as int;
    let s3 = quoted(v.title) + l3 + quoted(v.author) + l4 + quoted(v.description) + l5 + dec_i64(
        v.date,
    ) + l6 + rest;
    assert(s2 =~= l2 + s3);
    lemma_sp_lit_at(t, i2, l2, s3);
    let i3 = i2 + l2.len() as int;
    let s4 = l3 + quoted(v.author) + l4 + quoted(v.description) + l5 + dec_i64(v.date) + l6 + rest;
    assert(s3 =~= quoted(v.title) + s4);
    lemma_qstr_round(t, i3, v.title, s4);
    let i4 = i3 + quoted(v.title).len() as int;
    let s5 = quoted(v.author) + l4 + quoted(v.description) + l5 + dec_i64(v.date) + l6 + rest;
    assert(s4 =~= l3 + s5);
    lemma_sp_lit_at(t, i4, l3, s5);
    let i5 = i4 + l3.len() as int;
    let s6 = l4 + quoted(v.description) + l5 + dec_i64(v.date) + l6 + rest;
    assert(s5 =~= quoted(v.author) + s6);
    lemma_qstr_round(t, i5, v.author, s6);
    let i6 = i5 + quoted(v.author).len() as int;
    let s7 = quoted(v.description) + l5 + dec_i64(v.date) + l6 + rest;
    assert(s6 =~= l4 + s7);
    lemma_sp_lit_at(t, i6, l4, s7);
    let i7 = i6 + l4.len() as int;
    let s8 = l5 + dec_i64(v.date) + l6 + rest;
    assert(s7 =~= quoted(v.description) + s8);
    lemma_qstr_round(t, i7, v.description, s8);
    let i8 = i7 + quoted(v.description).len() as int;
    let s9 = dec_i64(v.date) + l6 + rest;
    assert(s8 =~= l5 + s9);
    lemma_sp_lit_at(t, i8, l5, s9);
    let i9 = i8 + l5.len() as int;
    let s10 = l6 + rest;
    assert(s9 =~= dec_i64(v.date) + s10);
    assert(s10.len() == 0 || !is_digit(s10[0])) by {
        reveal_strlit("}");
        assert(s10[0] == '}');
        assert('}' as int == 125);
    }
    lemma_sp_int_round(t, i9, v.date, s10);
    let i10 = i9 + dec_i64(v.date).len() as int;
    assert(s10 =~= l6 + rest);
    lemma_sp_lit_at(t, i10, l6, rest);
    let i11 = i10 + l6.len() as int;
    assert(i11 == i + news_json(v).len() as int);
    assert(v == (NewsView {
        id: v.id,
        title: v.title,
        author: v.author,
        description: v.description,
        date: v.date,
    }));
}

/// Decoding a serialized article yields the article that was encoded:
/// the wire codec loses nothing.
pub proof fn lemma_news_round_trip(v: NewsView)
    requires
        i64::MIN as int <= v.date <= i64::MAX as int,
    ensures
        news_of(news_json(v)) == Some(v),
{
    let t = news_json(v);
    assert(t.subrange(0, t.len() as int) =~= t + Seq::<char>::empty());
    lemma_sp_news_round(t, 0, v, Seq::empty());
}

/// Decoding the wire form of a publish request yields the request that
/// was encoded: the wire codec loses nothing.
#[verifier::rlimit(100)]
pub proof fn lemma_add_news_round_trip(a: AddNewsView)
    requires
        i64::MIN as int <= a.news.date <= i64::MAX as int,
    ensures
        add_news_of(add_news_json(a)) == Some(a),
{
    let t = add_news_json(a);
    let l1 = "{\"news\":"@;
    let l2 = ",\"requester_peer_id\":"@;
    let l3 = "}"@;
    assert(t.subrange(0, t.len() as int) =~= t + Seq::<char>::empty());
    let s1 = news_json(a.news) + l2 + quoted(a.requester_peer_id) + l3;
    assert(t.subrange(0, t.len() as int) =~= l1 + s1);
    lemma_sp_lit_at(t, 0, l1, s1);
    let i1 = l1.len() as int;
    let s2 = l2 + quoted(a.requester_peer_id) + l3;
    assert(s1 =~= news_json(a.news) + s2);
    lemma_sp_news_round(t, i1, a.news, s2);
    let i2 = i1 + news_json(a.news).len() as int;
    let s3 = quoted(a.requester_peer_id) + l3;
    assert(s2 =~= l2 + s3);
    lemma_sp_lit_at(t, i2, l2, s3);
    let i3 = i2 + l2.len() as int;
    let s4 = l3 + Seq::<char>::empty();
    assert(s3 =~= quoted(a.requester_peer_id) + s4);
    lemma_qstr_round(t, i3, a.requester_peer_id, s4);
    let i4 = i3 + quoted(a.requester_peer_id).len() as int;
    assert(s4 =~= l3 + Seq::<char>::empty());
    lemma_sp_lit_at(t, i4, l3, Seq::empty());
    assert(a == (AddNewsView { news: a.news, requester_peer_id: a.requester_peer_id }));
}

} // verus!
