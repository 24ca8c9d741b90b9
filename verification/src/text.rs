//! Character and string helpers shared by coordinate parsing, rendering and
//! serialization: Unicode whitespace, trimming, decimal numerals.

use vstd::prelude::*;

verus! {

/// The Unicode `White_Space` property, which `char::is_whitespace`, `str::trim`
/// and `str::split_whitespace` use.
pub open spec fn is_ws(c: char) -> bool {
    ||| ('\u{9}' <= c && c <= '\u{d}')
    ||| c == ' '
    ||| c == '\u{85}'
    ||| c == '\u{a0}'
    ||| c == '\u{1680}'
    ||| ('\u{2000}' <= c && c <= '\u{200a}')
    ||| c == '\u{2028}'
    ||| c == '\u{2029}'
    ||| c == '\u{202f}'
    ||| c == '\u{205f}'
    ||| c == '\u{3000}'
}

/// Whether `c` has the Unicode `White_Space` property.
pub fn is_whitespace(c: char) -> (r: bool)
    ensures
        r == is_ws(c),
{
    ('\u{9}' <= c && c <= '\u{d}') || c == ' ' || c == '\u{85}' || c == '\u{a0}' || c
        == '\u{1680}' || ('\u{2000}' <= c && c <= '\u{200a}') || c == '\u{2028}' || c
        == '\u{2029}' || c == '\u{202f}' || c == '\u{205f}' || c == '\u{3000}'
}

/// Drop leading whitespace.
pub open spec fn trim_start(s: Seq<char>) -> Seq<char>
    decreases s.len(),
{
    if s.len() > 0 && is_ws(s[0]) {
        trim_start(s.skip(1))
    } else {
        s
    }
}

/// Drop trailing whitespace.
pub open spec fn trim_end(s: Seq<char>) -> Seq<char>
    decreases s.len(),
{
    if s.len() > 0 && is_ws(s.last()) {
        trim_end(s.drop_last())
    } else {
        s
    }
}

/// Drop leading and trailing whitespace, as `str::trim` does.
pub open spec fn trim(s: Seq<char>) -> Seq<char> {
    trim_end(trim_start(s))
}

/// Whether `c` is an ASCII decimal digit.
pub open spec fn is_digit(c: char) -> bool {
    '0' <= c && c <= '9'
}

/// The numeric value of an ASCII decimal digit.
pub open spec fn digit_value(c: char) -> nat {
    (c as int - '0' as int) as nat
}

/// The ASCII digit for a value below ten.
pub open spec fn digit_char(d: nat) -> char {
    ((d + '0' as int) as u32) as char
}

/// Whether every character of `s` is an ASCII digit.
pub open spec fn all_digits(s: Seq<char>) -> bool {
    forall|i: int| 0 <= i < s.len() ==> is_digit(#[trigger] s[i])
}

/// The value of a string of decimal digits, most significant first.
pub open spec fn digits_value(s: Seq<char>) -> nat
    decreases s.len(),
{
    if s.len() == 0 {
        0
    } else {
        digits_value(s.drop_last()) * 10 + digit_value(s.last())
    }
}

/// What `str::parse` gives for an unsigned integer type whose largest value is
/// `max`: an optional leading `+`, then at least one ASCII digit, with a value
/// of at most `max`.
pub open spec fn parse_unsigned(s: Seq<char>, max: nat) -> Option<nat> {
    let d = if s.len() > 0 && s[0] == '+' {
        s.skip(1)
    } else {
        s
    };
    if d.len() > 0 && all_digits(d) && digits_value(d) <= max {
        Some(digits_value(d))
    } else {
        None
    }
}

/// The decimal numeral of `n`, without leading zeros.
pub open spec fn decimal(n: nat) -> Seq<char>
    decreases n,
{
    if n < 10 {
        seq![digit_char(n)]
    } else {
        decimal(n / 10).push(digit_char(n % 10))
    }
}

/// Append one character to a string (`String::push`).
#[verifier::external_body]
pub fn push_char(s: &mut String, c: char)
    ensures
        final(s)@ == old(s)@.push(c),
{
    s.push(c);
}

/// The ASCII digit for a value below ten.
pub fn digit_to_char(d: u32) -> (c: char)
    requires
        d < 10,
    ensures
        c == digit_char(d as nat),
        is_digit(c),
        digit_value(c) == d,
{
    let b: u8 = 48u8 + d as u8;
    b as char
}

/// Append the decimal numeral of `n`.
pub fn push_decimal(s: &mut String, n: u32)
    ensures
        final(s)@ == old(s)@ + decimal(n as nat),
    decreases n,
{
    if n >= 10 {
        push_decimal(s, n / 10);
    }
    let c = digit_to_char(n % 10);
    push_char(s, c);
    assert(final(s)@ =~= old(s)@ + decimal(n as nat));
}

/// The characters of a string slice.
pub fn chars_of(s: &str) -> (v: Vec<char>)
    ensures
        v@ == s@,
{
    let n = s.unicode_len();
    let mut v: Vec<char> = Vec::new();
    let mut i: usize = 0;
    while i < n
        invariant
            n == s@.len(),
            i <= n,
            v@ == s@.take(i as int),
        decreases n - i,
    {
        v.push(s.get_char(i));
        i = i + 1;
        assert(v@ =~= s@.take(i as int));
    }
    assert(s@.take(n as int) =~= s@);
    v
}

/// The characters of `s` without leading and trailing whitespace
/// (`str::trim`).
pub fn trim_chars(s: &Vec<char>) -> (r: Vec<char>)
    ensures
        r@ == trim(s@),
{
    let n = s.len();
    let mut start: usize = 0;
    assert(s@.skip(0) =~= s@);
    while start < n && is_whitespace(s[start])
        invariant
            n == s@.len(),
            start <= n,
            trim_start(s@) == trim_start(s@.skip(start as int)),
        decreases n - start,
    {
        assert(s@.skip(start as int).skip(1) =~= s@.skip(start + 1));
        start = start + 1;
    }
    let mut end: usize = n;
    let ghost t = s@.skip(start as int);
    assert(trim_start(s@) == t);
    assert(t.take(end - start) =~= t);
    while end > start && is_whitespace(s[end - 1])
        invariant
            n == s@.len(),
            start <= end <= n,
            t == s@.skip(start as int),
            trim_end(t) == trim_end(t.take(end - start)),
        decreases end,
    {
        assert(t.take(end - start).drop_last() =~= t.take(end - start - 1));
        end = end - 1;
    }
    let mut r: Vec<char> = Vec::new();
    let mut i: usize = start;
    while i < end
        invariant
            n == s@.len(),
            start <= i <= end <= n,
            r@ == s@.subrange(start as int, i as int),
        decreases end - i,
    {
        r.push(s[i]);
        i = i + 1;
        assert(r@ =~= s@.subrange(start as int, i as int));
    }
    assert(t.take(end - start) =~= s@.subrange(start as int, end as int));
    r
}

/// Parse `s[from..]` as an unsigned integer no larger than `max`, as
/// `str::parse` does for an unsigned type whose largest value is `max`.
pub fn parse_unsigned_from(s: &Vec<char>, from: usize, max: u32) -> (r: Option<u32>)
    requires
        from <= s@.len(),
    ensures
        match parse_unsigned(s@.skip(from as int), max as nat) {
            Some(v) => r == Some(v as u32),
            None => r is None,
        },
{
    let ghost t = s@.skip(from as int);
    let n = s.len();
    let mut i: usize = from;
    if i < n && s[i] == '+' {
        i = i + 1;
    }
    let start = i;
    let ghost d = s@.subrange(start as int, n as int);
    assert(d =~= (if t.len() > 0 && t[0] == '+' { t.skip(1) } else { t }));
    if start >= n {
        return None;
    }
    let mut v: u32 = 0;
    let mut big = false;
    assert(s@.subrange(start as int, start as int) =~= Seq::<char>::empty());
    while i < n
        invariant
            from <= start <= i <= n,
            n == s@.len(),
            d == s@.subrange(start as int, n as int),
            t == s@.skip(from as int),
            d == (if t.len() > 0 && t[0] == '+' { t.skip(1) } else { t }),
            all_digits(s@.subrange(start as int, i as int)),
            big ==> digits_value(s@.subrange(start as int, i as int)) > max,
            !big ==> v == digits_value(s@.subrange(start as int, i as int)) && v <= max,
        decreases n - i,
    {
        let c = s[i];
        let ghost pre = s@.subrange(start as int, i as int);
        let ghost post = s@.subrange(start as int, i + 1);
        assert(post.drop_last() =~= pre);
        assert(post.last() == c);
        if !('0' <= c && c <= '9') {
            assert(d[i - start] == c);
            assert(!is_digit(d[i - start]));
            assert(!all_digits(d));
            assert(parse_unsigned(t, max as nat) is None);
            return None;
        }
        let dv: u32 = (c as u32) - 48;
        if !big {
            let nv: u64 = (v as u64) * 10 + (dv as u64);
            if nv > max as u64 {
                big = true;
            } else {
                v = nv as u32;
            }
        }
        i = i + 1;
        assert(all_digits(post)) by {
            assert forall|k: int| 0 <= k < post.len() implies is_digit(#[trigger] post[k]) by {
                if k < pre.len() {
                    assert(post[k] == pre[k]);
                }
            }
        }
    }
    if big {
        None
    } else {
        Some(v)
    }
}

/// A decimal numeral is a non-empty string of digits denoting its number.
pub proof fn lemma_decimal(n: nat)
    ensures
        decimal(n).len() >= 1,
        all_digits(decimal(n)),
        digits_value(decimal(n)) == n,
    decreases n,
{
    assert(digit_value(digit_char(n % 10)) == n % 10);
    if n >= 10 {
        lemma_decimal(n / 10);
        assert(n == (n / 10) * 10 + n % 10);
        let d = decimal(n);
        assert(d.drop_last() =~= decimal(n / 10));
        assert(d.last() == digit_char(n % 10));
        assert(digits_value(d) == digits_value(d.drop_last()) * 10 + digit_value(d.last()));
        assert forall|i: int| 0 <= i < d.len() implies is_digit(#[trigger] d[i]) by {
            if i < d.len() - 1 {
                assert(d[i] == decimal(n / 10)[i]);
            }
        }
    } else {
        let d = decimal(n);
        assert(d.drop_last() =~= Seq::<char>::empty());
        assert(digits_value(d) == digits_value(d.drop_last()) * 10 + digit_value(d.last()));
    }
}

/// A string that neither starts nor ends with whitespace trims to itself.
pub proof fn lemma_trim_identity(s: Seq<char>)
    requires
        s.len() > 0,
        !is_ws(s[0]),
        !is_ws(s.last()),
    ensures
        trim(s) == s,
{
}


/// The parts joined into one string with `sep` between neighbours.
pub open spec fn join(parts: Seq<Seq<char>>, sep: char) -> Seq<char>
    decreases parts.len(),
{
    if parts.len() == 0 {
        Seq::empty()
    } else if parts.len() == 1 {
        parts[0]
    } else {
        join(parts.drop_last(), sep) + seq![sep] + parts.last()
    }
}

/// The pieces of `s` between occurrences of `sep`, as `str::split` with a
/// character gives them: always at least one piece, possibly empty ones.
pub open spec fn split_on(s: Seq<char>, sep: char) -> Seq<Seq<char>>
    decreases s.len(),
{
    if s.len() == 0 {
        seq![Seq::empty()]
    } else {
        let prev = split_on(s.drop_last(), sep);
        if s.last() == sep {
            prev.push(Seq::empty())
        } else {
            prev.update(prev.len() - 1, prev.last().push(s.last()))
        }
    }
}

/// The maximal runs of non-whitespace characters of `s`, in order, as
/// `str::split_whitespace` gives them.
pub open spec fn words(s: Seq<char>) -> Seq<Seq<char>>
    decreases s.len(),
{
    if s.len() == 0 {
        Seq::empty()
    } else {
        let prev = words(s.drop_last());
        let c = s.last();
        if is_ws(c) {
            prev
        } else if s.len() >= 2 && !is_ws(s[s.len() - 2]) {
            prev.update(prev.len() - 1, prev.last().push(c))
        } else {
            prev.push(seq![c])
        }
    }
}

/// The strings held by a vector of character vectors.
pub open spec fn views(v: Seq<Vec<char>>) -> Seq<Seq<char>> {
    Seq::new(v.len(), |i: int| v[i]@)
}

/// Whether `c` occurs in `s`.
pub open spec fn has_char(s: Seq<char>, c: char) -> bool {
    exists|i: int| 0 <= i < s.len() && s[i] == c
}

/// Whether `s` holds no whitespace character.
pub open spec fn no_ws(s: Seq<char>) -> bool {
    forall|i: int| 0 <= i < s.len() ==> !is_ws(#[trigger] s[i])
}

/// The string holding the given characters.
pub fn string_of(v: &Vec<char>) -> (s: String)
    ensures
        s@ == v@,
{
    let mut s = String::new();
    let mut i: usize = 0;
    while i < v.len()
        invariant
            i <= v@.len(),
            s@ == v@.take(i as int),
        decreases v@.len() - i,
    {
        push_char(&mut s, v[i]);
        i = i + 1;
        assert(s@ =~= v@.take(i as int));
    }
    assert(v@.take(i as int) =~= v@);
    s
}

/// The characters `s[from..to]`.
pub fn sub_chars(s: &Vec<char>, from: usize, to: usize) -> (r: Vec<char>)
    requires
        from <= to <= s@.len(),
    ensures
        r@ == s@.subrange(from as int, to as int),
{
    let mut r: Vec<char> = Vec::new();
    let mut i: usize = from;
    while i < to
        invariant
            from <= i <= to <= s@.len(),
            r@ == s@.subrange(from as int, i as int),
        decreases to - i,
    {
        r.push(s[i]);
        i = i + 1;
        assert(r@ =~= s@.subrange(from as int, i as int));
    }
    r
}

/// The pieces of `s[from..]` between occurrences of `sep` (`str::split`).
pub fn split_chars(s: &Vec<char>, from: usize, sep: char) -> (r: Vec<Vec<char>>)
    requires
        from <= s@.len(),
    ensures
        views(r@) == split_on(s@.skip(from as int), sep),
{
    let n = s.len();
    let mut parts: Vec<Vec<char>> = Vec::new();
    let mut cur: Vec<char> = Vec::new();
    let mut i: usize = from;
    assert(s@.subrange(from as int, from as int) =~= Seq::<char>::empty());
    assert(views(parts@).push(cur@) =~= seq![Seq::<char>::empty()]);
    while i < n
        invariant
            n == s@.len(),
            from <= i <= n,
            split_on(s@.subrange(from as int, i as int), sep) == views(parts@).push(cur@),
        decreases n - i,
    {
        let c = s[i];
        let ghost pre = s@.subrange(from as int, i as int);
        let ghost old_parts = views(parts@);
        let ghost old_cur = cur@;
        assert(s@.subrange(from as int, i + 1).drop_last() =~= pre);
        assert(s@.subrange(from as int, i + 1).last() == c);
        if c == sep {
            let done = cur;
            parts.push(done);
            cur = Vec::new();
            assert(views(parts@) =~= old_parts.push(old_cur));
            assert(views(parts@).push(cur@) =~= old_parts.push(old_cur).push(Seq::empty()));
        } else {
            cur.push(c);
            assert(views(parts@) =~= old_parts);
            assert(views(parts@).push(cur@) =~= old_parts.push(old_cur).update(
                old_parts.len() as int,
                old_cur.push(c),
            ));
        }
        i = i + 1;
    }
    parts.push(cur);
    assert(s@.subrange(from as int, n as int) =~= s@.skip(from as int));
    assert(views(parts@) =~= split_on(s@.skip(from as int), sep));
    parts
}

/// The whitespace-separated words of `s` (`str::split_whitespace`).
pub fn split_words(s: &Vec<char>) -> (r: Vec<Vec<char>>)
    ensures
        views(r@) == words(s@),
{
    let n = s.len();
    let mut parts: Vec<Vec<char>> = Vec::new();
    let mut cur: Vec<char> = Vec::new();
    let mut i: usize = 0;
    assert(s@.take(0) =~= Seq::<char>::empty());
    assert(views(parts@) =~= Seq::<Seq<char>>::empty());
    while i < n
        invariant
            n == s@.len(),
            i <= n,
            words(s@.take(i as int)) == if cur@.len() > 0 {
                views(parts@).push(cur@)
            } else {
                views(parts@)
            },
            cur@.len() > 0 <==> (i > 0 && !is_ws(s@[i - 1])),
        decreases n - i,
    {
        let c = s[i];
        let ghost pre = s@.take(i as int);
        let ghost old_parts = views(parts@);
        let ghost old_cur = cur@;
        assert(s@.take(i + 1).drop_last() =~= pre);
        assert(s@.take(i + 1).last() == c);
        if is_whitespace(c) {
            if cur.len() > 0 {
                let done = cur;
                parts.push(done);
                cur = Vec::new();
                assert(views(parts@) =~= old_parts.push(old_cur));
            }
        } else {
            if i > 0 {
                assert(s@.take(i + 1)[i - 1] == s@[i - 1]);
            }
            cur.push(c);
            proof {
                assert(views(parts@) =~= old_parts);
                if old_cur.len() > 0 {
                    assert(views(parts@).push(cur@) =~= old_parts.push(old_cur).update(
                        old_parts.len() as int,
                        old_cur.push(c),
                    ));
                } else {
                    assert(cur@ =~= seq![c]);
                }
            }
        }
        i = i + 1;
    }
    if cur.len() > 0 {
        let ghost old_parts = views(parts@);
        let ghost old_cur = cur@;
        parts.push(cur);
        assert(views(parts@) =~= old_parts.push(old_cur));
    }
    assert(s@.take(n as int) =~= s@);
    parts
}

/// A string without the separator splits into itself alone.
pub proof fn lemma_split_plain(w: Seq<char>, sep: char)
    requires
        !has_char(w, sep),
    ensures
        split_on(w, sep) == seq![w],
    decreases w.len(),
{
    if w.len() > 0 {
        assert(!has_char(w.drop_last(), sep)) by {
            if has_char(w.drop_last(), sep) {
                let i = choose|i: int| 0 <= i < w.drop_last().len() && w.drop_last()[i] == sep;
                assert(w[i] == sep);
            }
        }
        lemma_split_plain(w.drop_last(), sep);
        assert(w[w.len() - 1] != sep);
        assert(w.drop_last().push(w.last()) =~= w);
        assert(split_on(w, sep) =~= seq![w]);
    } else {
        assert(w =~= Seq::<char>::empty());
    }
}

/// Splitting after a separator and a piece without separators adds that piece.
pub proof fn lemma_split_append(a: Seq<char>, w: Seq<char>, sep: char)
    requires
        !has_char(w, sep),
    ensures
        split_on(a + seq![sep] + w, sep) == split_on(a, sep).push(w),
    decreases w.len(),
{
    let x = a + seq![sep] + w;
    if w.len() == 0 {
        assert(x =~= a.push(sep));
        assert(x.drop_last() =~= a);
        assert(w =~= Seq::<char>::empty());
    } else {
        assert(!has_char(w.drop_last(), sep)) by {
            if has_char(w.drop_last(), sep) {
                let i = choose|i: int| 0 <= i < w.drop_last().len() && w.drop_last()[i] == sep;
                assert(w[i] == sep);
            }
        }
        lemma_split_append(a, w.drop_last(), sep);
        assert(x.drop_last() =~= a + seq![sep] + w.drop_last());
        assert(x.last() == w[w.len() - 1]);
        assert(w.drop_last().push(w.last()) =~= w);
        assert(split_on(x, sep) =~= split_on(a, sep).push(w));
    }
}

/// Splitting a join of pieces without the separator gives back the pieces.
pub proof fn lemma_split_join(parts: Seq<Seq<char>>, sep: char)
    requires
        parts.len() >= 1,
        forall|i: int| 0 <= i < parts.len() ==> !has_char(#[trigger] parts[i], sep),
    ensures
        split_on(join(parts, sep), sep) == parts,
    decreases parts.len(),
{
    if parts.len() == 1 {
        lemma_split_plain(parts[0], sep);
        assert(parts =~= seq![parts[0]]);
    } else {
        let q = parts.drop_last();
        assert forall|i: int| 0 <= i < q.len() implies !has_char(#[trigger] q[i], sep) by {
            assert(q[i] == parts[i]);
        }
        lemma_split_join(q, sep);
        assert(!has_char(parts[parts.len() - 1], sep));
        lemma_split_append(join(q, sep), parts.last(), sep);
        assert(q.push(parts.last()) =~= parts);
    }
}

/// Appending a word to a string that is empty or ends in whitespace adds
/// exactly that word.
pub proof fn lemma_words_append(a: Seq<char>, w: Seq<char>)
    requires
        a.len() == 0 || is_ws(a.last()),
        w.len() >= 1,
        no_ws(w),
    ensures
        words(a + w) == words(a).push(w),
    decreases w.len(),
{
    let x = a + w;
    assert(x.drop_last() =~= a + w.drop_last());
    assert(x.last() == w[w.len() - 1]);
    if w.len() == 1 {
        assert(a + w.drop_last() =~= a);
        if a.len() > 0 {
            assert(x[x.len() - 2] == a.last());
        }
        assert(w =~= seq![w[0]]);
    } else {
        lemma_words_append(a, w.drop_last());
        assert(x[x.len() - 2] == w[w.len() - 2]);
        assert(w.drop_last().push(w.last()) =~= w);
        assert(words(x) =~= words(a).push(w));
    }
}

/// The words of a space-joined list of non-empty words without whitespace
/// are those words.
pub proof fn lemma_words_join(parts: Seq<Seq<char>>)
    requires
        forall|i: int| 0 <= i < parts.len() ==> (#[trigger] parts[i]).len() >= 1 && no_ws(parts[i]),
    ensures
        words(join(parts, ' ')) == parts,
    decreases parts.len(),
{
    if parts.len() == 1 {
        lemma_words_append(Seq::empty(), parts[0]);
        assert(Seq::<char>::empty() + parts[0] =~= parts[0]);
        assert(parts =~= seq![parts[0]]);
    } else if parts.len() > 1 {
        let q = parts.drop_last();
        assert forall|i: int| 0 <= i < q.len() implies (#[trigger] q[i]).len() >= 1 && no_ws(q[i]) by {
            assert(q[i] == parts[i]);
        }
        lemma_words_join(q);
        let a = join(q, ' ') + seq![' '];
        assert(a.drop_last() =~= join(q, ' '));
        assert(parts[parts.len() - 1].len() >= 1 && no_ws(parts[parts.len() - 1]));
        lemma_words_append(a, parts.last());
        assert(q.push(parts.last()) =~= parts);
    }
}

/// The first position at or after `i` where `c` occurs in `s`, or the length
/// of `s` when there is none.
pub open spec fn find_from(s: Seq<char>, c: char, i: int) -> int
    decreases s.len() - i,
{
    if i < 0 || i >= s.len() {
        s.len() as int
    } else if s[i] == c {
        i
    } else {
        find_from(s, c, i + 1)
    }
}

/// The position of the first `c` in `s`, or the length of `s`.
pub fn find_char(s: &Vec<char>, c: char) -> (k: usize)
    ensures
        k == find_from(s@, c, 0),
{
    let mut i: usize = 0;
    while i < s.len()
        invariant
            i <= s@.len(),
            find_from(s@, c, 0) == find_from(s@, c, i as int),
        decreases s@.len() - i,
    {
        if s[i] == c {
            return i;
        }
        i = i + 1;
    }
    i
}

/// The first occurrence is the first position holding `c` when none before
/// it does.
pub proof fn lemma_find_from(s: Seq<char>, c: char, i: int, k: int)
    requires
        0 <= i <= k < s.len(),
        s[k] == c,
        forall|j: int| i <= j < k ==> s[j] != c,
    ensures
        find_from(s, c, i) == k,
    decreases k - i,
{
    if i < k {
        lemma_find_from(s, c, i + 1, k);
    }
}

} // verus!
