//! Character-sequence helpers shared by the parsers and formatters: splitting,
//! joining, trimming, replacing and decimal rendering, each with its model.
use vstd::prelude::*;
use crate::apply::strip_cr;

verus! {

/// The views of a sequence of strings.
pub open spec fn views(v: Seq<String>) -> Seq<Seq<char>> {
    v.map_values(|s: String| s@)
}

/// `s` split at every occurrence of `sep`, as `str::split` with a `char` pattern.
/// There is always at least one piece; an empty `s` gives one empty piece.
pub open spec fn split_on(s: Seq<char>, sep: char) -> Seq<Seq<char>>
    decreases s.len(),
{
    if s.len() == 0 {
        seq![Seq::<char>::empty()]
    } else {
        let init = split_on(s.drop_last(), sep);
        if s.last() == sep {
            init.push(Seq::<char>::empty())
        } else {
            init.update(init.len() - 1, init.last().push(s.last()))
        }
    }
}

/// The pieces joined with `sep` between neighbours, as `[T]::join`.
pub open spec fn join_with(parts: Seq<Seq<char>>, sep: Seq<char>) -> Seq<char>
    decreases parts.len(),
{
    if parts.len() == 0 {
        Seq::<char>::empty()
    } else if parts.len() == 1 {
        parts[0]
    } else {
        join_with(parts.drop_last(), sep) + sep + parts.last()
    }
}

/// Every occurrence of `from` replaced by the sequence `to`.
pub open spec fn replace_char(s: Seq<char>, from: char, to: Seq<char>) -> Seq<char>
    decreases s.len(),
{
    if s.len() == 0 {
        Seq::<char>::empty()
    } else {
        replace_char(s.drop_last(), from, to) + (if s.last() == from {
            to
        } else {
            seq![s.last()]
        })
    }
}

/// Whether `s` ends with `suffix`.
pub open spec fn ends_with(s: Seq<char>, suffix: Seq<char>) -> bool {
    suffix.len() <= s.len() && s.subrange(s.len() - suffix.len(), s.len() as int) == suffix
}

/// Whether `s` starts with `prefix`.
pub open spec fn starts_with(s: Seq<char>, prefix: Seq<char>) -> bool {
    prefix.len() <= s.len() && s.subrange(0, prefix.len() as int) == prefix
}

/// The decimal digits of `n`, as `Display` for unsigned integers writes them.
pub open spec fn decimal(n: nat) -> Seq<char>
    decreases n,
{
    if n < 10 {
        seq![digit_char(n)]
    } else {
        decimal(n / 10).push(digit_char(n % 10))
    }
}

/// The ASCII digit for a value below ten.
pub open spec fn digit_char(d: nat) -> char {
    if d == 0 {
        '0'
    } else if d == 1 {
        '1'
    } else if d == 2 {
        '2'
    } else if d == 3 {
        '3'
    } else if d == 4 {
        '4'
    } else if d == 5 {
        '5'
    } else if d == 6 {
        '6'
    } else if d == 7 {
        '7'
    } else if d == 8 {
        '8'
    } else {
        '9'
    }
}

/// Unicode's `White_Space` property of a character, as `char::is_whitespace` reports it:
/// the ASCII tab, line feed, vertical tab, form feed, carriage return and space, next
/// line, no-break space, the Ogham space mark, the spaces U+2000 to U+200A, the line and
/// paragraph separators, the narrow no-break space, the medium mathematical space and the
/// ideographic space.
pub open spec fn unicode_whitespace(c: char) -> bool {
    let v = c as u32;
    ||| 0x09 <= v <= 0x0D
    ||| v == 0x20
    ||| v == 0x85
    ||| v == 0xA0
    ||| v == 0x1680
    ||| 0x2000 <= v <= 0x200A
    ||| v == 0x2028
    ||| v == 0x2029
    ||| v == 0x202F
    ||| v == 0x205F
    ||| v == 0x3000
}

/// The full Unicode lowercase mapping of a string, as `str::to_lowercase` computes it.
pub uninterp spec fn lowercase_of(s: Seq<char>) -> Seq<char>;

/// The full Unicode uppercase mapping of a string, as `str::to_uppercase` computes it.
pub uninterp spec fn uppercase_of(s: Seq<char>) -> Seq<char>;

/// The quoted and escaped form that `Debug` writes for a string.
pub uninterp spec fn debug_quoted(s: Seq<char>) -> Seq<char>;

/// Number of leading characters of `s` that are Unicode whitespace.
pub open spec fn leading_ws(s: Seq<char>) -> nat
    decreases s.len(),
{
    if s.len() == 0 {
        0
    } else if unicode_whitespace(s[0]) {
        1 + leading_ws(s.drop_first())
    } else {
        0
    }
}

/// Number of trailing characters of `s` that are Unicode whitespace.
pub open spec fn trailing_ws(s: Seq<char>) -> nat
    decreases s.len(),
{
    if s.len() == 0 {
        0
    } else if unicode_whitespace(s.last()) {
        1 + trailing_ws(s.drop_last())
    } else {
        0
    }
}

/// `s` without leading and trailing Unicode whitespace, as `str::trim`.
pub open spec fn trim(s: Seq<char>) -> Seq<char> {
    let front = s.skip(leading_ws(s) as int);
    front.take(front.len() - trailing_ws(front))
}

/// Appends one character to a string (`String::push`).
#[verifier::external_body]
pub(crate) fn push_char(s: &mut String, c: char)
    ensures
        final(s)@ == old(s)@.push(c),
{
    s.push(c);
}

/// Whether a character has Unicode's `White_Space` property, as `char::is_whitespace`.
pub(crate) fn is_whitespace(c: char) -> (r: bool)
    ensures
        r == unicode_whitespace(c),
{
    let v = c as u32;
    (0x09 <= v && v <= 0x0D) || v == 0x20 || v == 0x85 || v == 0xA0 || v == 0x1680 || (0x2000
        <= v && v <= 0x200A) || v == 0x2028 || v == 0x2029 || v == 0x202F || v == 0x205F || v
        == 0x3000
}

/// `str::to_lowercase`.
#[verifier::external_body]
pub(crate) fn to_lowercase(s: &str) -> (r: String)
    ensures
        r@ == lowercase_of(s@),
{
    s.to_lowercase()
}

/// A character in ASCII lower case: `A` to `Z` become `a` to `z`, others are kept.
pub open spec fn ascii_lower(c: char) -> char {
    if 'A' <= c && c <= 'Z' {
        ((c as u32) + 32) as char
    } else {
        c
    }
}

/// The text in ASCII lower case, as `str::to_ascii_lowercase`: every ASCII upper-case
/// letter lowered, other characters kept.
pub(crate) fn to_ascii_lowercase(s: &str) -> (r: String)
    ensures
        r@ == s@.map_values(|c: char| ascii_lower(c)),
{
    let chars = chars_of(s);
    let mut r = String::new();
    let mut i: usize = 0;
    while i < chars.len()
        invariant
            i <= chars.len(),
            chars@ == s@,
            r@ == s@.take(i as int).map_values(|c: char| ascii_lower(c)),
        decreases chars.len() - i,
    {
        let c = chars[i];
        let lowered = if 'A' <= c && c <= 'Z' {
            let b = (c as u8) + 32;
            assert(b as char == ((c as u32) + 32) as char);
            b as char
        } else {
            c
        };
        push_char(&mut r, lowered);
        assert(s@.take(i + 1) =~= s@.take(i as int).push(c));
        assert(s@.take(i + 1).map_values(|c: char| ascii_lower(c)) =~= s@.take(i as int).map_values(
            |c: char| ascii_lower(c),
        ).push(ascii_lower(c)));
        i += 1;
    }
    assert(s@.take(chars.len() as int) =~= s@);
    r
}

/// `str::to_uppercase`. Besides naming the result, the contract states that a leading
/// `.` stays in place: std maps a string character by character, and `.` has no
/// uppercase mapping, so it is kept as it is.
#[verifier::external_body]
pub(crate) fn to_uppercase(s: &str) -> (r: String)
    ensures
        r@ == uppercase_of(s@),
        s@.len() > 0 && s@[0] == '.' ==> r@.len() > 0 && r@[0] == '.',
{
    s.to_uppercase()
}

/// `Debug` of a string slice, written through `format!`.
#[verifier::external_body]
pub(crate) fn debug_string(s: &str) -> (r: String)
    ensures
        r@ == debug_quoted(s@),
{
    format!("{s:?}")
}

/// The characters of a string slice, in order.
pub fn chars_of(s: &str) -> (out: Vec<char>)
    ensures
        out@ == s@,
{
    let mut out: Vec<char> = Vec::new();
    for c in it: s.chars()
        invariant
            out@ == it.seq().take(it.index() as int),
    {
        out.push(c);
    }
    out
}

/// A string holding the given characters.
pub fn string_of(chars: &[char]) -> (out: String)
    ensures
        out@ == chars@,
{
    let mut out = String::new();
    let mut i: usize = 0;
    while i < chars.len()
        invariant
            i <= chars.len(),
            out@ == chars@.take(i as int),
        decreases chars.len() - i,
    {
        push_char(&mut out, chars[i]);
        assert(chars@.take(i + 1) == chars@.take(i as int).push(chars@[i as int]));
        i += 1;
    }
    assert(chars@.take(chars.len() as int) == chars@);
    out
}

/// A string copied from a string slice.
pub fn owned(s: &str) -> (out: String)
    ensures
        out@ == s@,
{
    s.to_owned()
}

/// Appends a string slice to a string.
pub fn append(out: &mut String, s: &str)
    ensures
        final(out)@ == old(out)@ + s@,
{
    out.append(s);
}

/// Whether two strings hold the same characters.
pub fn same_text(a: &str, b: &str) -> (r: bool)
    ensures
        r == (a@ == b@),
{
    let x = owned(a);
    let y = owned(b);
    x == y
}

/// Whether `s` is empty.
pub fn is_empty_text(s: &str) -> (r: bool)
    ensures
        r == (s@.len() == 0),
{
    s.is_empty()
}

/// Whether the list holds a string equal to `s`.
pub fn contains_text(list: &Vec<String>, s: &str) -> (r: bool)
    ensures
        r == views(list@).contains(s@),
{
    let mut i: usize = 0;
    while i < list.len()
        invariant
            i <= list.len(),
            forall|j: int| 0 <= j < i ==> list@[j]@ != s@,
        decreases list.len() - i,
    {
        if same_text(list[i].as_str(), s) {
            assert(views(list@)[i as int] == s@);
            return true;
        }
        i += 1;
    }
    assert(!views(list@).contains(s@)) by {
        if views(list@).contains(s@) {
            let k = choose|k: int| 0 <= k < views(list@).len() && views(list@)[k] == s@;
            assert(list@[k]@ == s@);
        }
    }
    false
}

/// `s` without leading and trailing Unicode whitespace.
pub fn trim_text(s: &str) -> (out: String)
    ensures
        out@ == trim(s@),
{
    let chars = chars_of(s);
    let n = chars.len();
    let mut lead: usize = 0;
    assert(s@.skip(0) == s@);
    while lead < n && is_whitespace(chars[lead])
        invariant
            lead <= n,
            n == s@.len(),
            chars@ == s@,
            leading_ws(s@) == lead + leading_ws(s@.skip(lead as int)),
        decreases n - lead,
    {
        assert(s@.skip(lead as int).drop_first() == s@.skip(lead + 1));
        assert(s@.skip(lead as int)[0] == chars@[lead as int]);
        lead += 1;
    }
    proof {
        if lead < n {
            assert(s@.skip(lead as int)[0] == chars@[lead as int]);
        }
    }
    let ghost front = s@.skip(lead as int);
    assert(leading_ws(s@) == lead);
    let mut end: usize = n - lead;
    assert(front.take(end as int) == front);
    while end > 0 && is_whitespace(chars[lead + end - 1])
        invariant
            end <= n - lead,
            lead <= n,
            n == s@.len(),
            chars@ == s@,
            front == s@.skip(lead as int),
            trailing_ws(front) == (front.len() - end) + trailing_ws(front.take(end as int)),
        decreases end,
    {
        assert(front.take(end as int).drop_last() == front.take(end - 1));
        assert(front.take(end as int).last() == chars@[lead + end - 1]);
        end -= 1;
    }
    proof {
        if end > 0 {
            assert(front.take(end as int).last() == chars@[lead + end - 1]);
        }
    }
    assert(trailing_ws(front) == front.len() - end);
    let mut out = String::new();
    let mut k: usize = 0;
    while k < end
        invariant
            k <= end,
            end <= n - lead,
            lead <= n,
            n == s@.len(),
            chars@ == s@,
            front == s@.skip(lead as int),
            out@ == front.take(k as int),
        decreases end - k,
    {
        push_char(&mut out, chars[lead + k]);
        assert(front.take(k + 1) == front.take(k as int).push(chars@[lead + k]));
        k += 1;
    }
    out
}

/// The characters `chars[from..to]` as a string.
pub fn substring(chars: &Vec<char>, from: usize, to: usize) -> (out: String)
    requires
        from <= to <= chars.len(),
    ensures
        out@ == chars@.subrange(from as int, to as int),
{
    let mut out = String::new();
    let mut k: usize = from;
    while k < to
        invariant
            from <= k <= to,
            to <= chars.len(),
            out@ == chars@.subrange(from as int, k as int),
        decreases to - k,
    {
        push_char(&mut out, chars[k]);
        assert(chars@.subrange(from as int, k + 1) == chars@.subrange(from as int, k as int).push(
            chars@[k as int],
        ));
        k += 1;
    }
    out
}

/// Every occurrence of `from` in `s` replaced by `to`.
pub fn replace_text(s: &str, from: char, to: &str) -> (out: String)
    ensures
        out@ == replace_char(s@, from, to@),
{
    let chars = chars_of(s);
    let mut out = String::new();
    let mut k: usize = 0;
    while k < chars.len()
        invariant
            k <= chars.len(),
            chars@ == s@,
            out@ == replace_char(s@.take(k as int), from, to@),
        decreases chars.len() - k,
    {
        assert(s@.take(k + 1).drop_last() == s@.take(k as int));
        assert(s@.take(k + 1).last() == chars@[k as int]);
        if chars[k] == from {
            append(&mut out, to);
        } else {
            push_char(&mut out, chars[k]);
            assert(out@ == replace_char(s@.take(k as int), from, to@) + seq![chars@[k as int]]);
        }
        k += 1;
    }
    assert(s@.take(chars.len() as int) == s@);
    out
}

/// Whether `s` ends with `suffix`.
pub fn text_ends_with(s: &str, suffix: &str) -> (r: bool)
    ensures
        r == ends_with(s@, suffix@),
{
    let a = chars_of(s);
    let b = chars_of(suffix);
    if b.len() > a.len() {
        return false;
    }
    let off = a.len() - b.len();
    let mut i: usize = 0;
    while i < b.len()
        invariant
            i <= b.len(),
            off + b.len() == a.len(),
            a@ == s@,
            b@ == suffix@,
            forall|k: int| 0 <= k < i ==> a@[off + k] == b@[k],
        decreases b.len() - i,
    {
        if a[off + i] != b[i] {
            assert(s@.subrange(off as int, s@.len() as int)[i as int] != suffix@[i as int]);
            return false;
        }
        i += 1;
    }
    assert(s@.subrange(off as int, s@.len() as int) =~= suffix@);
    true
}

/// `s` split at every occurrence of `sep`.
pub fn split_text(s: &str, sep: char) -> (out: Vec<String>)
    ensures
        views(out@) == split_on(s@, sep),
{
    let chars = chars_of(s);
    let mut out: Vec<String> = Vec::new();
    let mut current = String::new();
    let mut i: usize = 0;
    while i < chars.len()
        invariant
            i <= chars.len(),
            chars@ == s@,
            views(out@).push(current@) == split_on(s@.take(i as int), sep),
        decreases chars.len() - i,
    {
        let c = chars[i];
        proof {
            let t = s@.take(i + 1);
            assert(t.drop_last() == s@.take(i as int));
            assert(t.last() == c);
        }
        if c == sep {
            let ghost before = views(out@);
            let piece = current;
            out.push(piece);
            current = String::new();
            assert(views(out@) == before.push(piece@));
        } else {
            let ghost before = views(out@).push(current@);
            push_char(&mut current, c);
            assert(views(out@).push(current@) == before.update(
                before.len() - 1,
                before.last().push(c),
            ));
        }
        i += 1;
    }
    assert(s@.take(chars.len() as int) == s@);
    out.push(current);
    out
}

/// The lines of a text as `str::lines` yields them: split at each newline, a carriage
/// return before a newline dropped, and no line after a final newline.
pub open spec fn text_lines(s: Seq<char>) -> Seq<Seq<char>> {
    let parts = split_on(s, '\n');
    let body = parts.drop_last().map_values(|p: Seq<char>| strip_cr(p));
    if parts.last().len() == 0 {
        body
    } else {
        body.push(parts.last())
    }
}

/// A string without one trailing carriage return.
pub fn strip_cr_text(s: &str) -> (r: String)
    ensures
        r@ == strip_cr(s@),
{
    let chars = chars_of(s);
    let n = chars.len();
    if n > 0 && chars[n - 1] == '\r' {
        let r = substring(&chars, 0, n - 1);
        assert(chars@.subrange(0, n - 1) == s@.drop_last());
        r
    } else {
        owned(s)
    }
}

/// The lines of a text, as `str::lines` yields them.
pub fn lines_of(s: &str) -> (r: Vec<String>)
    ensures
        views(r@) == text_lines(s@),
{
    let parts = split_text(s, '\n');
    proof {
        lemma_split_nonempty(s@, '\n');
    }
    let last = parts.len() - 1;
    let ghost ps = views(parts@);
    let mut r: Vec<String> = Vec::new();
    let mut i: usize = 0;
    while i < last
        invariant
            i <= last,
            last + 1 == parts.len(),
            ps == views(parts@),
            ps == split_on(s@, '\n'),
            views(r@) == ps.take(i as int).map_values(|p: Seq<char>| strip_cr(p)),
        decreases last - i,
    {
        let line = strip_cr_text(parts[i].as_str());
        let ghost before = views(r@);
        r.push(line);
        assert(views(r@) == before.push(line@));
        assert(ps.take(i + 1).map_values(|p: Seq<char>| strip_cr(p)) == ps.take(i as int).map_values(
            |p: Seq<char>| strip_cr(p),
        ).push(strip_cr(ps[i as int])));
        i += 1;
    }
    assert(ps.take(last as int) == ps.drop_last());
    if !is_empty_text(parts[last].as_str()) {
        let ghost before = views(r@);
        let tail = parts[last].clone();
        r.push(tail);
        assert(views(r@) == before.push(ps.last()));
    }
    r
}

/// The pieces joined with `sep` between neighbours.
pub fn join_text(parts: &Vec<String>, sep: &str) -> (out: String)
    ensures
        out@ == join_with(views(parts@), sep@),
{
    let mut out = String::new();
    let mut i: usize = 0;
    while i < parts.len()
        invariant
            i <= parts.len(),
            out@ == join_with(views(parts@).take(i as int), sep@),
        decreases parts.len() - i,
    {
        let ghost t = views(parts@).take(i + 1);
        assert(t.drop_last() == views(parts@).take(i as int));
        if i > 0 {
            append(&mut out, sep);
        }
        append(&mut out, parts[i].as_str());
        proof {
            if i == 0 {
                assert(t.len() == 1);
                assert(views(parts@).take(0) == Seq::<Seq<char>>::empty());
            }
        }
        i += 1;
    }
    assert(views(parts@).take(parts.len() as int) == views(parts@));
    out
}

/// Decimal rendering of a 64-bit unsigned integer.
pub fn decimal_text_u64(n: u64) -> (out: String)
    ensures
        out@ == decimal(n as nat),
    decreases n,
{
    let d = (n % 10) as usize;
    let mut out = if n < 10 {
        String::new()
    } else {
        decimal_text_u64(n / 10)
    };
    let last = decimal_text(d);
    append(&mut out, last.as_str());
    assert(decimal((n % 10) as nat) == seq![digit_char((n % 10) as nat)]);
    out
}

/// Decimal rendering of an unsigned integer.
pub fn decimal_text(n: usize) -> (out: String)
    ensures
        out@ == decimal(n as nat),
    decreases n,
{
    let d = n % 10;
    let c = if d == 0 {
        '0'
    } else if d == 1 {
        '1'
    } else if d == 2 {
        '2'
    } else if d == 3 {
        '3'
    } else if d == 4 {
        '4'
    } else if d == 5 {
        '5'
    } else if d == 6 {
        '6'
    } else if d == 7 {
        '7'
    } else if d == 8 {
        '8'
    } else {
        '9'
    };
    if n < 10 {
        let mut out = String::new();
        push_char(&mut out, c);
        out
    } else {
        let mut out = decimal_text(n / 10);
        push_char(&mut out, c);
        out
    }
}

/// Splitting `x + b` where `b` has no separator extends the last piece of `x` by `b`.
pub proof fn lemma_split_append_plain(x: Seq<char>, b: Seq<char>, sep: char)
    requires
        !b.contains(sep),
    ensures
        split_on(x + b, sep) == split_on(x, sep).update(
            split_on(x, sep).len() - 1,
            split_on(x, sep).last() + b,
        ),
        split_on(x + b, sep).len() == split_on(x, sep).len(),
        split_on(x, sep).len() >= 1,
    decreases b.len(),
{
    lemma_split_nonempty(x, sep);
    if b.len() == 0 {
        assert(x + b == x);
        assert(split_on(x, sep).last() + b == split_on(x, sep).last());
        assert(split_on(x, sep).update(split_on(x, sep).len() - 1, split_on(x, sep).last())
            == split_on(x, sep));
    } else {
        let b0 = b.drop_last();
        assert(!b0.contains(sep)) by {
            if b0.contains(sep) {
                let k = choose|k: int| 0 <= k < b0.len() && b0[k] == sep;
                assert(b[k] == sep);
            }
        }
        lemma_split_append_plain(x, b0, sep);
        let y = x + b;
        assert(y.drop_last() == x + b0);
        assert(y.last() == b.last());
        assert(b.last() != sep) by {
            assert(b[b.len() - 1] == b.last());
        }
        let sx = split_on(x, sep);
        let n = sx.len() - 1;
        let init = split_on(x + b0, sep);
        assert(init.last() == sx.last() + b0);
        assert((sx.last() + b0).push(b.last()) == sx.last() + b);
        assert(split_on(y, sep) == init.update(n, init.last().push(b.last())));
        assert(init.update(n, sx.last() + b) == sx.update(n, sx.last() + b));
    }
}

/// The pieces of a split, each with one separator after it, are one longer than the input.
pub proof fn lemma_split_lines_len(s: Seq<char>, sep: char)
    ensures
        crate::apply::lines_len(split_on(s, sep)) == s.len() + 1,
    decreases s.len(),
{
    if s.len() == 0 {
        let one = seq![Seq::<char>::empty()];
        assert(split_on(s, sep) == one);
        assert(one.drop_last() == Seq::<Seq<char>>::empty());
        assert(crate::apply::lines_len(one) == crate::apply::lines_len(one.drop_last()) + 1);
    } else {
        lemma_split_lines_len(s.drop_last(), sep);
        lemma_split_nonempty(s.drop_last(), sep);
        let init = split_on(s.drop_last(), sep);
        if s.last() != sep {
            let up = init.update(init.len() - 1, init.last().push(s.last()));
            assert(split_on(s, sep) == up);
            assert(up.drop_last() == init.drop_last());
            assert(up.last() == init.last().push(s.last()));
            assert(crate::apply::lines_len(init) == crate::apply::lines_len(init.drop_last())
                + init.last().len() + 1);
            assert(crate::apply::lines_len(up) == crate::apply::lines_len(up.drop_last())
                + up.last().len() + 1);
        } else {
            let pushed = init.push(Seq::<char>::empty());
            assert(split_on(s, sep) == pushed);
            assert(pushed.drop_last() == init);
            assert(crate::apply::lines_len(pushed) == crate::apply::lines_len(init) + 1);
        }
    }
}

/// `split_on` always yields at least one piece.
pub proof fn lemma_split_nonempty(s: Seq<char>, sep: char)
    ensures
        split_on(s, sep).len() >= 1,
    decreases s.len(),
{
    if s.len() > 0 {
        lemma_split_nonempty(s.drop_last(), sep);
    }
}

/// Splitting a join gives the pieces back when no piece holds the separator.
pub proof fn lemma_split_join(parts: Seq<Seq<char>>, sep: char)
    requires
        parts.len() >= 1,
        forall|i: int| 0 <= i < parts.len() ==> !(#[trigger] parts[i]).contains(sep),
    ensures
        split_on(join_with(parts, seq![sep]), sep) == parts,
    decreases parts.len(),
{
    if parts.len() == 1 {
        let p = parts[0];
        lemma_split_append_plain(Seq::<char>::empty(), p, sep);
        assert(Seq::<char>::empty() + p == p);
        assert(split_on(Seq::<char>::empty(), sep) == seq![Seq::<char>::empty()]);
        assert(Seq::<char>::empty() + p == p);
    } else {
        let init = parts.drop_last();
        assert forall|i: int| 0 <= i < init.len() implies !(#[trigger] init[i]).contains(sep) by {
            assert(init[i] == parts[i]);
        }
        lemma_split_join(init, sep);
        let a = join_with(init, seq![sep]);
        let last = parts.last();
        assert(!last.contains(sep)) by {
            assert(parts[parts.len() - 1] == last);
        }
        let with_sep = a + seq![sep];
        assert(with_sep.drop_last() == a);
        assert(split_on(with_sep, sep) == init.push(Seq::<char>::empty()));
        lemma_split_append_plain(with_sep, last, sep);
        assert(join_with(parts, seq![sep]) == with_sep + last);
        assert(Seq::<char>::empty() + last == last);
        assert(init.push(Seq::<char>::empty()).update(init.len() as int, last) == parts);
    }
}

/// A piece produced by `split_on` never holds the separator.
pub proof fn lemma_split_pieces_plain(s: Seq<char>, sep: char)
    ensures
        forall|i: int|
            0 <= i < split_on(s, sep).len() ==> !(#[trigger] split_on(s, sep)[i]).contains(sep),
    decreases s.len(),
{
    if s.len() > 0 {
        lemma_split_pieces_plain(s.drop_last(), sep);
        lemma_split_nonempty(s.drop_last(), sep);
        let init = split_on(s.drop_last(), sep);
        if s.last() != sep {
            let grown = init.last().push(s.last());
            assert(!grown.contains(sep)) by {
                if grown.contains(sep) {
                    let k = choose|k: int| 0 <= k < grown.len() && grown[k] == sep;
                    if k < init.last().len() {
                        assert(init[init.len() - 1][k] == sep);
                    }
                }
            }
        }
    }
}

} // verus!

verus! {

/// Joining the pieces of a split with the separator gives the text back.
pub proof fn lemma_join_split(s: Seq<char>, sep: char)
    ensures
        join_with(split_on(s, sep), seq![sep]) == s,
    decreases s.len(),
{
    if s.len() == 0 {
        assert(split_on(s, sep) == seq![Seq::<char>::empty()]);
    } else {
        let t = s.drop_last();
        lemma_join_split(t, sep);
        lemma_split_nonempty(t, sep);
        let init = split_on(t, sep);
        let n = init.len();
        if s.last() == sep {
            let parts = init.push(Seq::<char>::empty());
            assert(parts.drop_last() == init);
            assert(join_with(parts, seq![sep]) == join_with(init, seq![sep]) + seq![sep]
                + Seq::<char>::empty());
            assert(t + seq![sep] + Seq::<char>::empty() =~= s);
        } else {
            let c = s.last();
            let parts = init.update(n - 1, init.last().push(c));
            if n == 1 {
                assert(join_with(init, seq![sep]) == init[0]);
                assert(join_with(parts, seq![sep]) == parts[0]);
                assert(parts[0] == init[0].push(c));
            } else {
                assert(parts.drop_last() == init.drop_last());
                assert(join_with(init, seq![sep]) == join_with(init.drop_last(), seq![sep]) + seq![
                    sep,
                ] + init.last());
                assert(join_with(parts, seq![sep]) == join_with(parts.drop_last(), seq![sep])
                    + seq![sep] + parts.last());
                assert(parts.last() == init.last().push(c));
                assert(join_with(parts.drop_last(), seq![sep]) + seq![sep] + init.last().push(c)
                    =~= (join_with(init.drop_last(), seq![sep]) + seq![sep] + init.last()).push(c));
            }
            assert(t.push(c) =~= s);
        }
    }
}

} // verus!
