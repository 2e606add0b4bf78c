//! String helpers shared across the crate: character-level equality,
//! ASCII trimming and upper-casing, decimal rendering of integers, and
//! comma-separated-list membership.

use vstd::prelude::*;

verus! {

/// Character-by-character equality of two string slices.
pub fn str_eq(a: &str, b: &str) -> (r: bool)
    ensures
        r == (a@ == b@),
{
    let alen = a.unicode_len();
    let blen = b.unicode_len();
    if alen != blen {
        return false;
    }
    let mut i: usize = 0;
    while i < alen
        invariant
            a@.len() == alen,
            b@.len() == alen,
            i <= alen,
            forall|j: int| 0 <= j < i ==> a@[j] == b@[j],
        decreases alen - i,
    {
        if a.get_char(i) != b.get_char(i) {
            return false;
        }
        i = i + 1;
    }
    proof {
        assert(a@ =~= b@);
    }
    true
}

/// Code-point order on character sequences, with a prefix ordered before
/// its extensions. This is the order SQLite's default (binary) collation
/// gives TEXT values: UTF-8 compares bytewise in code-point order.
pub open spec fn lex_le(a: Seq<char>, b: Seq<char>) -> bool
    decreases a.len(),
{
    if a.len() == 0 {
        true
    } else if b.len() == 0 {
        false
    } else if a[0] != b[0] {
        a[0] < b[0]
    } else {
        lex_le(a.drop_first(), b.drop_first())
    }
}

/// Any two character sequences are ordered one way or the other.
pub proof fn lemma_lex_le_total(a: Seq<char>, b: Seq<char>)
    ensures
        lex_le(a, b) || lex_le(b, a),
    decreases a.len(),
{
    if a.len() > 0 && b.len() > 0 && a[0] == b[0] {
        lemma_lex_le_total(a.drop_first(), b.drop_first());
    }
}

/// The order is transitive.
pub proof fn lemma_lex_le_trans(a: Seq<char>, b: Seq<char>, c: Seq<char>)
    requires
        lex_le(a, b),
        lex_le(b, c),
    ensures
        lex_le(a, c),
    decreases a.len(),
{
    if a.len() > 0 && b.len() > 0 && c.len() > 0 && a[0] == b[0] && b[0] == c[0] {
        lemma_lex_le_trans(a.drop_first(), b.drop_first(), c.drop_first());
    }
}

/// Whether `a` comes no later than `b` in code-point order.
pub fn str_le(a: &str, b: &str) -> (r: bool)
    ensures
        r == lex_le(a@, b@),
{
    let alen = a.unicode_len();
    let blen = b.unicode_len();
    proof {
        assert(a@.skip(0) =~= a@);
        assert(b@.skip(0) =~= b@);
    }
    let mut i: usize = 0;
    while i < alen && i < blen
        invariant
            a@.len() == alen,
            b@.len() == blen,
            i <= alen,
            i <= blen,
            lex_le(a@, b@) == lex_le(a@.skip(i as int), b@.skip(i as int)),
        decreases alen - i,
    {
        let ca = a.get_char(i);
        let cb = b.get_char(i);
        proof {
            assert(a@.skip(i as int)[0] == a@[i as int]);
            assert(b@.skip(i as int)[0] == b@[i as int]);
        }
        if ca != cb {
            return ca < cb;
        }
        proof {
            assert(a@.skip(i as int).drop_first() =~= a@.skip(i as int + 1));
            assert(b@.skip(i as int).drop_first() =~= b@.skip(i as int + 1));
        }
        i = i + 1;
    }
    proof {
        if i == alen {
            assert(a@.skip(i as int).len() == 0);
        } else {
            assert(b@.skip(i as int).len() == 0);
            assert(a@.skip(i as int).len() > 0);
        }
    }
    alen <= blen
}

/// The ASCII whitespace characters that `trim_of` removes.
pub open spec fn is_ascii_space(c: char) -> bool {
    c == ' ' || c == '\t' || c == '\n' || c == '\r' || c == '\u{b}' || c == '\u{c}'
}

pub open spec fn trim_start_of(s: Seq<char>) -> Seq<char>
    decreases s.len(),
{
    if s.len() > 0 && is_ascii_space(s[0]) {
        trim_start_of(s.drop_first())
    } else {
        s
    }
}

pub open spec fn trim_end_of(s: Seq<char>) -> Seq<char>
    decreases s.len(),
{
    if s.len() > 0 && is_ascii_space(s.last()) {
        trim_end_of(s.drop_last())
    } else {
        s
    }
}

/// `s` with leading and trailing ASCII whitespace removed.
pub open spec fn trim_of(s: Seq<char>) -> Seq<char> {
    trim_end_of(trim_start_of(s))
}

/// Returns the trimmed middle of `s`, as `trim_of` describes it.
pub fn trim(s: &str) -> (r: &str)
    ensures
        r@ == trim_of(s@),
{
    let len = s.unicode_len();
    proof {
        assert(s@.subrange(0, len as int) =~= s@);
    }
    let mut lo: usize = 0;
    while lo < len && is_space_char(s.get_char(lo))
        invariant
            s@.len() == len,
            lo <= len,
            trim_start_of(s@) == trim_start_of(s@.subrange(lo as int, len as int)),
        decreases len - lo,
    {
        proof {
            let tail = s@.subrange(lo as int, len as int);
            assert(tail.drop_first() =~= s@.subrange(lo as int + 1, len as int));
        }
        lo = lo + 1;
    }
    proof {
        assert(trim_start_of(s@) == s@.subrange(lo as int, len as int));
    }
    let mut hi: usize = len;
    while hi > lo && is_space_char(s.get_char(hi - 1))
        invariant
            s@.len() == len,
            lo <= hi <= len,
            trim_start_of(s@) == s@.subrange(lo as int, len as int),
            trim_end_of(s@.subrange(lo as int, len as int)) == trim_end_of(
                s@.subrange(lo as int, hi as int),
            ),
        decreases hi,
    {
        proof {
            let part = s@.subrange(lo as int, hi as int);
            assert(part.drop_last() =~= s@.subrange(lo as int, hi as int - 1));
        }
        hi = hi - 1;
    }
    proof {
        assert(trim_of(s@) == s@.subrange(lo as int, hi as int));
    }
    s.substring_char(lo, hi)
}

/// Clones an optional string, keeping its contents.
pub fn clone_opt_string(o: &Option<String>) -> (r: Option<String>)
    ensures
        r == *o,
{
    match o {
        Some(s) => Some(s.clone()),
        None => None,
    }
}

/// Executable twin of `is_ascii_space`.
pub fn is_space_char(c: char) -> (r: bool)
    ensures
        r == is_ascii_space(c),
{
    c == ' ' || c == '\t' || c == '\n' || c == '\r' || c == '\u{b}' || c == '\u{c}'
}

/// ASCII upper-casing of one character: `'a'..='z'` map to `'A'..='Z'`,
/// every other character is unchanged.
pub open spec fn ascii_upper_char(c: char) -> char {
    if 'a' <= c && c <= 'z' {
        (((c as u32) - 32) as u32) as char
    } else {
        c
    }
}

/// ASCII upper-casing of a whole character sequence.
pub open spec fn ascii_upper(s: Seq<char>) -> Seq<char> {
    s.map_values(|c: char| ascii_upper_char(c))
}

/// Relies on str::to_ascii_uppercase: 'a' to 'z' are mapped to 'A' to 'Z',
/// all other characters are left unchanged.
#[verifier::external_body]
pub fn to_ascii_upper_string(s: &str) -> (r: String)
    ensures
        r@ == ascii_upper(s@),
{
    s.to_ascii_uppercase()
}

/// The decimal digit `d` as a character; meaningful for `0 <= d < 10`.
pub open spec fn dec_digit(d: int) -> char
    recommends
        0 <= d < 10,
{
    if d == 0 {
        '0'
    } else if d == 1 {
        '1'
    } else if d == 2 {
        '2'
    } else if d == 3 {
        '3'
    } else if d == 4 {
        '4'
    } else if d == 5 {
        '5'
    } else if d == 6 {
        '6'
    } else if d == 7 {
        '7'
    } else if d == 8 {
        '8'
    } else {
        '9'
    }
}

/// The decimal representation of `n`: most significant digit first,
/// no sign and no leading zeros.
pub open spec fn dec_str_of(n: nat) -> Seq<char>
    decreases n,
{
    if n < 10 {
        seq![dec_digit(n as int)]
    } else {
        dec_str_of(n / 10).push(dec_digit((n % 10) as int))
    }
}

/// Relies on u64's Display implementation: decimal digits, no sign,
/// no leading zeros.
#[verifier::external_body]
pub fn u64_to_string(v: u64) -> (r: String)
    ensures
        r@ == dec_str_of(v as nat),
{
    v.to_string()
}

/// `s[i..j]` is one comma-separated segment of `s`: it touches a comma or an
/// end of `s` on both sides and holds no comma itself.
pub open spec fn is_csv_segment(s: Seq<char>, i: int, j: int) -> bool {
    &&& 0 <= i <= j <= s.len()
    &&& (i == 0 || s[i - 1] == ',')
    &&& (j == s.len() || s[j] == ',')
    &&& (forall|k: int| i <= k < j ==> s[k] != ',')
}

/// Some comma-separated segment of `s` is exactly `code`.
pub open spec fn csv_has(s: Seq<char>, code: Seq<char>) -> bool {
    exists|i: int, j: int| is_csv_segment(s, i, j) && s.subrange(i, j) == code
}

/// Whether one of the comma-separated segments of `csv` equals `code`.
pub fn contains_csv(csv: &str, code: &str) -> (r: bool)
    ensures
        r == csv_has(csv@, code@),
{
    let len = csv.unicode_len();
    let mut start: usize = 0;
    let mut i: usize = 0;
    while i < len
        invariant
            csv@.len() == len,
            start <= i <= len,
            start == 0 || csv@[start - 1] == ',',
            forall|k: int| start <= k < i ==> csv@[k] != ',',
            forall|a: int, b: int|
                is_csv_segment(csv@, a, b) && a < start ==> csv@.subrange(a, b) != code@,
        decreases len - i,
    {
        if csv.get_char(i) == ',' {
            if str_eq(csv.substring_char(start, i), code) {
                proof {
                    assert(is_csv_segment(csv@, start as int, i as int));
                }
                return true;
            }
            proof {
                assert forall|a: int, b: int|
                    is_csv_segment(csv@, a, b) && a < i + 1 implies csv@.subrange(a, b)
                    != code@ by {
                    if a >= start {
                        assert(a == start) by {
                            if a > start {
                                assert(csv@[a - 1] == ',');
                                assert(start <= a - 1 < i);
                            }
                        }
                        assert(b == i) by {
                            if b < i {
                                assert(csv@[b] == ',');
                                assert(start <= b < i);
                            } else if b > i {
                                assert(csv@[i as int] != ',');
                            }
                        }
                    }
                }
            }
            start = i + 1;
        }
        i = i + 1;
    }
    let matched = str_eq(csv.substring_char(start, len), code);
    if matched {
        proof {
            assert(is_csv_segment(csv@, start as int, len as int));
        }
        true
    } else {
        proof {
            assert forall|a: int, b: int| is_csv_segment(csv@, a, b) implies csv@.subrange(a, b)
                != code@ by {
                if a >= start {
                    assert(a == start) by {
                        if a > start {
                            assert(csv@[a - 1] == ',');
                            assert(start <= a - 1 < len);
                        }
                    }
                    assert(b == len) by {
                        if b < len {
                            assert(csv@[b] == ',');
                            assert(start <= b < len);
                        }
                    }
                }
            }
        }
        false
    }
}

/// The characters that `escape_html` rewrites.
pub open spec fn is_html_special(c: char) -> bool {
    c == '&' || c == '<' || c == '>' || c == '"'
}

/// What one character becomes under HTML escaping.
pub open spec fn escape_char(c: char) -> Seq<char> {
    if c == '&' {
        seq!['&', 'a', 'm', 'p', ';']
    } else if c == '<' {
        seq!['&', 'l', 't', ';']
    } else if c == '>' {
        seq!['&', 'g', 't', ';']
    } else if c == '"' {
        seq!['&', 'q', 'u', 'o', 't', ';']
    } else {
        seq![c]
    }
}

/// HTML escaping of a whole character sequence.
pub open spec fn escape_seq(s: Seq<char>) -> Seq<char>
    decreases s.len(),
{
    if s.len() == 0 {
        Seq::empty()
    } else {
        escape_char(s[0]) + escape_seq(s.drop_first())
    }
}

pub proof fn lemma_escape_concat(s: Seq<char>, t: Seq<char>)
    ensures
        escape_seq(s + t) == escape_seq(s) + escape_seq(t),
    decreases s.len(),
{
    if s.len() == 0 {
        assert(s + t =~= t);
        assert(escape_seq(s) + escape_seq(t) =~= escape_seq(t));
    } else {
        assert((s + t).drop_first() =~= s.drop_first() + t);
        lemma_escape_concat(s.drop_first(), t);
        assert(escape_char(s[0]) + (escape_seq(s.drop_first()) + escape_seq(t)) =~= (escape_char(
            s[0],
        ) + escape_seq(s.drop_first())) + escape_seq(t));
        assert((s + t)[0] == s[0]);
    }
}

pub proof fn lemma_escape_plain(s: Seq<char>)
    requires
        forall|k: int| 0 <= k < s.len() ==> !is_html_special(s[k]),
    ensures
        escape_seq(s) == s,
    decreases s.len(),
{
    if s.len() > 0 {
        lemma_escape_plain(s.drop_first());
        assert(escape_char(s[0]) + s.drop_first() =~= s);
    }
}

/// `s` with `&`, `<`, `>` and `"` replaced by their HTML entities.
pub fn escape_html(s: &str) -> (r: String)
    ensures
        r@ == escape_seq(s@),
{
    let len = s.unicode_len();
    let mut out = String::new();
    let mut start: usize = 0;
    let mut i: usize = 0;
    while i < len
        invariant
            s@.len() == len,
            start <= i <= len,
            out@ == escape_seq(s@.subrange(0, start as int)),
            forall|k: int| start <= k < i ==> !is_html_special(s@[k]),
        decreases len - i,
    {
        let c = s.get_char(i);
        if c == '&' || c == '<' || c == '>' || c == '"' {
            out.append(s.substring_char(start, i));
            if c == '&' {
                out.append("&amp;");
                proof {
                    reveal_strlit("&amp;");
                }
            } else if c == '<' {
                out.append("&lt;");
                proof {
                    reveal_strlit("&lt;");
                }
            } else if c == '>' {
                out.append("&gt;");
                proof {
                    reveal_strlit("&gt;");
                }
            } else {
                out.append("&quot;");
                proof {
                    reveal_strlit("&quot;");
                }
            }
            proof {
                let pre = s@.subrange(0, start as int);
                let run = s@.subrange(start as int, i as int);
                lemma_escape_concat(pre, run);
                lemma_escape_plain(run);
                lemma_escape_concat(pre + run, seq![s@[i as int]]);
                assert(escape_seq(seq![s@[i as int]]) =~= escape_char(s@[i as int])) by {
                    assert(seq![s@[i as int]].drop_first() =~= Seq::<char>::empty());
                    assert(escape_char(s@[i as int]) + escape_seq(Seq::<char>::empty())
                        =~= escape_char(s@[i as int]));
                }
                assert((pre + run) + seq![s@[i as int]] =~= s@.subrange(0, i as int + 1));
                assert(out@ == escape_seq(s@.subrange(0, i as int + 1)));
            }
            start = i + 1;
        }
        i = i + 1;
    }
    out.append(s.substring_char(start, len));
    proof {
        let pre = s@.subrange(0, start as int);
        let run = s@.subrange(start as int, len as int);
        lemma_escape_concat(pre, run);
        lemma_escape_plain(run);
        assert(pre + run =~= s@);
    }
    out
}

/// The items of `items` joined by the separator `sep`.
pub open spec fn joined(items: Seq<Seq<char>>, sep: Seq<char>) -> Seq<char>
    decreases items.len(),
{
    if items.len() == 0 {
        Seq::empty()
    } else if items.len() == 1 {
        items[0]
    } else {
        items[0] + sep + joined(items.drop_first(), sep)
    }
}

proof fn lemma_joined_step(items: Seq<Seq<char>>, sep: Seq<char>, i: int)
    requires
        1 <= i < items.len(),
    ensures
        joined(items.take(i + 1), sep) == joined(items.take(i), sep) + sep + items[i],
    decreases i,
{
    if i == 1 {
        assert(items.take(2).drop_first() =~= seq![items[1]]);
        assert(items.take(1) =~= seq![items[0]]);
        assert(items.take(2)[0] == items[0]);
        assert(joined(seq![items[1]], sep) == items[1]);
        assert(joined(items.take(2), sep) =~= joined(items.take(1), sep) + sep + items[1]);
    } else {
        let rest = items.drop_first();
        lemma_joined_step(rest, sep, i - 1);
        assert(items.take(i + 1).drop_first() =~= rest.take(i));
        assert(items.take(i).drop_first() =~= rest.take(i - 1));
        assert(items.take(i + 1)[0] == items[0]);
        assert(items.take(i)[0] == items[0]);
        assert(rest[i - 1] == items[i]);
        assert(items[0] + sep + (joined(rest.take(i - 1), sep) + sep + rest[i - 1]) =~= (items[0]
            + sep + joined(rest.take(i - 1), sep)) + sep + items[i]);
    }
}

/// Joins the strings in `items` with the separator `sep`.
pub fn join_with(items: &Vec<String>, sep: &str) -> (r: String)
    ensures
        r@ == joined(items.deep_view(), sep@),
{
    let mut out = String::new();
    let mut i: usize = 0;
    while i < items.len()
        invariant
            i <= items.len(),
            items.deep_view().len() == items.len(),
            forall|k: int|
                0 <= k < items.len() ==> items.deep_view()[k] == #[trigger] items@[k]@,
            out@ == joined(items.deep_view().take(i as int), sep@),
        decreases items.len() - i,
    {
        if i > 0 {
            out.append(sep);
        }
        out.append(items[i].as_str());
        proof {
            let dv = items.deep_view();
            if i == 0 {
                assert(dv.take(1) =~= seq![dv[0]]);
                assert(out@ =~= dv[0]);
            } else {
                lemma_joined_step(dv, sep@, i as int);
            }
        }
        i = i + 1;
    }
    proof {
        assert(items.deep_view().take(items.len() as int) =~= items.deep_view());
    }
    out
}

} // verus!
