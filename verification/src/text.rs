//! Character-level helpers shared by the parsers: whitespace, trimming,
//! splitting and conversions between strings and character buffers.

use vstd::prelude::*;
use vstd::string::*;
use trim_in_place::TrimInPlace;

verus! {

/// Whether `c` has the Unicode `White_Space` property.
pub open spec fn is_whitespace(c: char) -> bool {
    let n = c as u32;
    ||| (0x09 <= n && n <= 0x0D)
    ||| n == 0x20
    ||| n == 0x85
    ||| n == 0xA0
    ||| n == 0x1680
    ||| (0x2000 <= n && n <= 0x200A)
    ||| n == 0x2028
    ||| n == 0x2029
    ||| n == 0x202F
    ||| n == 0x205F
    ||| n == 0x3000
}

/// `s` without its leading whitespace.
pub open spec fn trim_start_of(s: Seq<char>) -> Seq<char>
    decreases s.len(),
{
    if s.len() > 0 && is_whitespace(s[0]) {
        trim_start_of(s.drop_first())
    } else {
        s
    }
}

/// `s` without its trailing whitespace.
pub open spec fn trim_end_of(s: Seq<char>) -> Seq<char>
    decreases s.len(),
{
    if s.len() > 0 && is_whitespace(s.last()) {
        trim_end_of(s.drop_last())
    } else {
        s
    }
}

/// `s` without leading and trailing whitespace.
pub open spec fn trimmed(s: Seq<char>) -> Seq<char> {
    trim_end_of(trim_start_of(s))
}

/// A letter's code point with ASCII upper case folded to lower case.
pub open spec fn fold_case(c: char) -> u32 {
    let n = c as u32;
    if 0x41 <= n && n <= 0x5A {
        (n + 32) as u32
    } else {
        n
    }
}

/// Whether `a` and `b` are equal up to the case of their ASCII letters.
pub open spec fn eq_ignore_case(a: Seq<char>, b: Seq<char>) -> bool {
    &&& a.len() == b.len()
    &&& forall|i: int| 0 <= i < a.len() ==> fold_case(#[trigger] a[i]) == fold_case(b[i])
}

/// The pieces of `s` between occurrences of `sep`: one more piece than there
/// are separators.
pub open spec fn split_on(s: Seq<char>, sep: char) -> Seq<Seq<char>>
    decreases s.len(),
{
    if s.len() == 0 {
        seq![Seq::<char>::empty()]
    } else if s.last() == sep {
        split_on(s.drop_last(), sep).push(Seq::<char>::empty())
    } else {
        let before = split_on(s.drop_last(), sep);
        before.drop_last().push(before.last().push(s.last()))
    }
}

/// The pieces put together again, with `sep` between them.
pub open spec fn joined(pieces: Seq<Seq<char>>, sep: char) -> Seq<char>
    decreases pieces.len(),
{
    if pieces.len() == 0 {
        Seq::empty()
    } else if pieces.len() == 1 {
        pieces[0]
    } else {
        joined(pieces.drop_last(), sep).push(sep) + pieces.last()
    }
}

/// Whether no character of `s` is whitespace.
pub open spec fn no_whitespace(s: Seq<char>) -> bool {
    forall|i: int| 0 <= i < s.len() ==> !is_whitespace(#[trigger] s[i])
}

/// Whether every character of `s` is whitespace.
pub open spec fn all_whitespace(s: Seq<char>) -> bool {
    forall|i: int| 0 <= i < s.len() ==> is_whitespace(#[trigger] s[i])
}

/// What follows the colon, if `s` is optional whitespace and then a colon.
pub open spec fn after_colon(s: Seq<char>) -> Option<Seq<char>> {
    let rest = trim_start_of(s);
    if rest.len() > 0 && rest[0] == ':' {
        Some(rest.drop_first())
    } else {
        None
    }
}

/// Each piece trimmed.
pub open spec fn trim_each(pieces: Seq<Seq<char>>) -> Seq<Seq<char>> {
    Seq::new(pieces.len(), |i: int| trimmed(pieces[i]))
}

/// Whether a result and its model agree.
pub open spec fn agrees<T: View, E: View>(r: Result<T, E>, model: Result<T::V, E::V>) -> bool {
    match (r, model) {
        (Ok(a), Ok(b)) => a@ == b,
        (Err(a), Err(b)) => a@ == b,
        _ => false,
    }
}

/// The views of a sequence of strings.
pub open spec fn texts(v: Seq<String>) -> Seq<Seq<char>> {
    Seq::new(v.len(), |i: int| v[i]@)
}

/// `str::trim` returns the slice with leading and trailing whitespace
/// removed, where whitespace is the Unicode `White_Space` property.
pub assume_specification[ str::trim ](s: &str) -> (r: &str)
    ensures
        r@ == trimmed(s@),
;

/// `String::push` appends one character to the end of the string.
pub assume_specification[ String::push ](s: &mut String, c: char)
    ensures
        final(s)@ == old(s)@.push(c),
;

/// `TrimInPlace::trim_in_place` for `String` replaces the string by its
/// `str::trim` slice, moved to the front of the same buffer.
#[verifier::external_body]
pub(crate) fn trim_string_in_place(s: &mut String)
    ensures
        final(s)@ == trimmed(old(s)@),
{
    s.trim_in_place();
}

/// Whether `c` is whitespace.
pub fn is_space(c: char) -> (r: bool)
    ensures
        r == is_whitespace(c),
{
    let n: u32 = c as u32;
    (0x09 <= n && n <= 0x0D) || n == 0x20 || n == 0x85 || n == 0xA0 || n == 0x1680 || (0x2000 <= n
        && n <= 0x200A) || n == 0x2028 || n == 0x2029 || n == 0x202F || n == 0x205F || n == 0x3000
}

/// The characters of `s`, in order.
pub fn chars_of(s: &str) -> (r: Vec<char>)
    ensures
        r@ == s@,
{
    let n: usize = s.unicode_len();
    let mut out: Vec<char> = Vec::new();
    let mut i: usize = 0;
    while i < n
        invariant
            n == s@.len(),
            i <= n,
            out@ == s@.subrange(0, i as int),
        decreases n - i,
    {
        let c: char = s.get_char(i);
        out.push(c);
        i = i + 1;
        assert(out@ =~= s@.subrange(0, i as int));
    }
    assert(s@.subrange(0, n as int) =~= s@);
    out
}

/// The string made of the characters `cs[from..to]`.
pub fn string_of(cs: &Vec<char>, from: usize, to: usize) -> (r: String)
    requires
        from <= to <= cs@.len(),
    ensures
        r@ == cs@.subrange(from as int, to as int),
{
    let mut out: String = String::new();
    let mut i: usize = from;
    while i < to
        invariant
            from <= i <= to <= cs@.len(),
            out@ == cs@.subrange(from as int, i as int),
        decreases to - i,
    {
        out.push(cs[i]);
        i = i + 1;
        assert(out@ =~= cs@.subrange(from as int, i as int));
    }
    out
}

/// The code point of `c` with ASCII upper case folded to lower case.
pub fn folded(c: char) -> (r: u32)
    ensures
        r == fold_case(c),
{
    let n: u32 = c as u32;
    if 0x41 <= n && n <= 0x5A {
        n + 32
    } else {
        n
    }
}

/// Whether `cs[from..to]` equals `word` up to ASCII case.
pub fn matches_ignore_case(cs: &Vec<char>, from: usize, to: usize, word: &str) -> (r: bool)
    requires
        from <= to <= cs@.len(),
    ensures
        r == eq_ignore_case(cs@.subrange(from as int, to as int), word@),
{
    let n: usize = word.unicode_len();
    if to - from != n {
        return false;
    }
    let ghost part = cs@.subrange(from as int, to as int);
    let mut i: usize = 0;
    while i < n
        invariant
            from <= to <= cs@.len(),
            n == word@.len(),
            to - from == n,
            i <= n,
            part == cs@.subrange(from as int, to as int),
            forall|k: int| 0 <= k < i ==> fold_case(#[trigger] part[k]) == fold_case(word@[k]),
        decreases n - i,
    {
        let a: char = cs[from + i];
        let b: char = word.get_char(i);
        if folded(a) != folded(b) {
            assert(part[i as int] == a);
            return false;
        }
        assert(part[i as int] == a);
        i = i + 1;
    }
    true
}

/// Whether `cs[from..to]` equals `word`.
pub fn matches_exactly(cs: &Vec<char>, from: usize, to: usize, word: &str) -> (r: bool)
    requires
        from <= to <= cs@.len(),
    ensures
        r == (cs@.subrange(from as int, to as int) == word@),
{
    let n: usize = word.unicode_len();
    if to - from != n {
        return false;
    }
    let ghost part = cs@.subrange(from as int, to as int);
    let mut i: usize = 0;
    while i < n
        invariant
            from <= to <= cs@.len(),
            n == word@.len(),
            to - from == n,
            i <= n,
            part == cs@.subrange(from as int, to as int),
            forall|k: int| 0 <= k < i ==> part[k] == word@[k],
        decreases n - i,
    {
        let a: char = cs[from + i];
        let b: char = word.get_char(i);
        assert(part[i as int] == a);
        if a != b {
            return false;
        }
        i = i + 1;
    }
    assert(part =~= word@);
    true
}

/// Whether `cs` holds no whitespace.
pub fn has_no_whitespace(cs: &Vec<char>) -> (r: bool)
    ensures
        r == no_whitespace(cs@),
{
    let n: usize = cs.len();
    let mut i: usize = 0;
    while i < n
        invariant
            n == cs@.len(),
            i <= n,
            forall|k: int| 0 <= k < i ==> !is_whitespace(#[trigger] cs@[k]),
        decreases n - i,
    {
        if is_space(cs[i]) {
            return false;
        }
        i = i + 1;
    }
    true
}

/// The first index at or after `from` that holds no whitespace.
pub fn skip_whitespace(cs: &Vec<char>, from: usize) -> (r: usize)
    requires
        from <= cs@.len(),
    ensures
        from <= r <= cs@.len(),
        cs@.subrange(r as int, cs@.len() as int) == trim_start_of(
            cs@.subrange(from as int, cs@.len() as int),
        ),
{
    let n: usize = cs.len();
    let mut i: usize = from;
    while i < n && is_space(cs[i])
        invariant
            n == cs@.len(),
            from <= i <= n,
            trim_start_of(cs@.subrange(i as int, n as int)) == trim_start_of(
                cs@.subrange(from as int, n as int),
            ),
        decreases n - i,
    {
        assert(cs@.subrange(i as int, n as int).drop_first() =~= cs@.subrange(
            i as int + 1,
            n as int,
        ));
        i = i + 1;
    }
    i
}

/// The string made of `cs[from..to]` without surrounding whitespace.
pub fn trimmed_string_of(cs: &Vec<char>, from: usize, to: usize) -> (r: String)
    requires
        from <= to <= cs@.len(),
    ensures
        r@ == trimmed(cs@.subrange(from as int, to as int)),
{
    let mut out: String = string_of(cs, from, to);
    trim_string_in_place(&mut out);
    out
}

/// Splits `cs[from..]` on `sep` and trims each piece.
pub fn split_trimmed(cs: &Vec<char>, from: usize, sep: char) -> (r: Vec<String>)
    requires
        from <= cs@.len(),
    ensures
        texts(r@) == trim_each(split_on(cs@.subrange(from as int, cs@.len() as int), sep)),
{
    let n: usize = cs.len();
    let mut out: Vec<String> = Vec::new();
    let mut start: usize = from;
    let mut i: usize = from;
    let ghost mut done: Seq<Seq<char>> = Seq::empty();
    proof {
        assert(cs@.subrange(from as int, from as int) =~= Seq::<char>::empty());
    }
    while i < n
        invariant
            n == cs@.len(),
            from <= start <= i <= n,
            done.len() == out@.len(),
            forall|k: int| 0 <= k < out@.len() ==> (#[trigger] out@[k])@ == trimmed(done[k]),
            split_on(cs@.subrange(from as int, i as int), sep) == done.push(
                cs@.subrange(start as int, i as int),
            ),
        decreases n - i,
    {
        let ghost before = cs@.subrange(from as int, i as int);
        let ghost now = cs@.subrange(from as int, i as int + 1);
        assert(now.drop_last() =~= before);
        assert(now.last() == cs@[i as int]);
        if cs[i] == sep {
            let piece: String = trimmed_string_of(cs, start, i);
            out.push(piece);
            proof {
                done = done.push(cs@.subrange(start as int, i as int));
                assert(cs@.subrange(i as int + 1, i as int + 1) =~= Seq::<char>::empty());
            }
            start = i + 1;
        } else {
            proof {
                let prev = done.push(cs@.subrange(start as int, i as int));
                assert(prev.drop_last() =~= done);
                assert(prev.last().push(cs@[i as int]) =~= cs@.subrange(
                    start as int,
                    i as int + 1,
                ));
            }
        }
        i = i + 1;
    }
    let piece: String = trimmed_string_of(cs, start, n);
    out.push(piece);
    proof {
        let all = done.push(cs@.subrange(start as int, n as int));
        assert(texts(out@) =~= trim_each(all));
    }
    out
}

/// Splitting gives at least one piece, no piece holds the separator, and
/// the pieces joined by the separator are the text that was split.
pub proof fn lemma_split_on(s: Seq<char>, sep: char)
    ensures
        split_on(s, sep).len() >= 1,
        forall|k: int, i: int|
            0 <= k < split_on(s, sep).len() && 0 <= i < split_on(s, sep)[k].len() ==> (
            #[trigger] split_on(s, sep)[k][i]) != sep,
        joined(split_on(s, sep), sep) == s,
    decreases s.len(),
{
    if s.len() == 0 {
        assert(joined(split_on(s, sep), sep) =~= s);
    } else {
        let before = split_on(s.drop_last(), sep);
        lemma_split_on(s.drop_last(), sep);
        let now = split_on(s, sep);
        if s.last() == sep {
            assert(now.drop_last() =~= before);
            assert(joined(now, sep) =~= s);
        } else {
            let grown = before.last().push(s.last());
            assert(now.last() == grown);
            assert(now.drop_last() =~= before.drop_last());
            if before.len() == 1 {
                assert(joined(now, sep) =~= s);
            } else {
                assert(joined(now, sep) =~= joined(before, sep).push(s.last()));
                assert(joined(now, sep) =~= s);
            }
            assert forall|k: int, i: int|
                0 <= k < now.len() && 0 <= i < now[k].len() implies (#[trigger] now[k][i])
                != sep by {
                if k < now.len() - 1 {
                    assert(now[k][i] == before[k][i]);
                } else if i < before.last().len() {
                    assert(now[k][i] == before[k][i]);
                }
            }
        }
    }
}

/// `trim_start_of` drops a head of whitespace and nothing else; what stays
/// does not start with whitespace.
pub proof fn lemma_trim_start(s: Seq<char>)
    ensures
        trim_start_of(s).len() <= s.len(),
        trim_start_of(s) == s.subrange(s.len() - trim_start_of(s).len(), s.len() as int),
        all_whitespace(s.subrange(0, s.len() - trim_start_of(s).len())),
        trim_start_of(s).len() > 0 ==> !is_whitespace(trim_start_of(s)[0]),
    decreases s.len(),
{
    if s.len() > 0 && is_whitespace(s[0]) {
        let rest = s.drop_first();
        lemma_trim_start(rest);
        let kept = trim_start_of(rest);
        assert(rest.subrange(rest.len() - kept.len(), rest.len() as int) =~= s.subrange(
            s.len() - kept.len(),
            s.len() as int,
        ));
        let head = s.subrange(0, s.len() - kept.len());
        assert forall|i: int| 0 <= i < head.len() implies is_whitespace(#[trigger] head[i]) by {
            if i > 0 {
                assert(head[i] == rest.subrange(0, rest.len() - kept.len())[i - 1]);
            }
        }
    } else {
        assert(s.subrange(0, s.len() as int) =~= s);
    }
}

/// `trim_end_of` drops a tail of whitespace and nothing else; what stays
/// does not end with whitespace.
pub proof fn lemma_trim_end(s: Seq<char>)
    ensures
        trim_end_of(s).len() <= s.len(),
        trim_end_of(s) == s.subrange(0, trim_end_of(s).len() as int),
        all_whitespace(s.subrange(trim_end_of(s).len() as int, s.len() as int)),
        trim_end_of(s).len() > 0 ==> !is_whitespace(trim_end_of(s).last()),
    decreases s.len(),
{
    if s.len() > 0 && is_whitespace(s.last()) {
        let rest = s.drop_last();
        lemma_trim_end(rest);
        let kept = trim_end_of(rest);
        assert(rest.subrange(0, kept.len() as int) =~= s.subrange(0, kept.len() as int));
        let tail = s.subrange(kept.len() as int, s.len() as int);
        assert forall|i: int| 0 <= i < tail.len() implies is_whitespace(#[trigger] tail[i]) by {
            if i < tail.len() - 1 {
                assert(tail[i] == rest.subrange(kept.len() as int, rest.len() as int)[i]);
            }
        }
    } else {
        assert(s.subrange(0, s.len() as int) =~= s);
    }
}

/// `trimmed(s)` is the part of `s` between its first and its last
/// character that is no whitespace: what is before and behind it in `s` is
/// whitespace, and it neither starts nor ends with whitespace.
pub proof fn lemma_trimmed(s: Seq<char>)
    ensures
        ({
            let from = s.len() - trim_start_of(s).len();
            let to = from + trimmed(s).len();
            &&& 0 <= from <= to <= s.len()
            &&& trimmed(s) == s.subrange(from, to)
            &&& all_whitespace(s.subrange(0, from))
            &&& all_whitespace(s.subrange(to, s.len() as int))
            &&& trimmed(s).len() > 0 ==> !is_whitespace(trimmed(s)[0]) && !is_whitespace(
                trimmed(s).last(),
            )
        }),
{
    let start = trim_start_of(s);
    lemma_trim_start(s);
    lemma_trim_end(start);
    let from = s.len() - start.len();
    let to = from + trimmed(s).len();
    assert(trimmed(s) =~= s.subrange(from, to));
    assert(start.subrange(trimmed(s).len() as int, start.len() as int) =~= s.subrange(
        to,
        s.len() as int,
    ));
    if trimmed(s).len() > 0 {
        assert(trimmed(s)[0] == start[0]);
    }
}

/// Whitespace in front of `s` does not change what `trim_start_of` gives.
pub proof fn lemma_trim_start_skips(ws: Seq<char>, s: Seq<char>)
    requires
        all_whitespace(ws),
    ensures
        trim_start_of(ws + s) == trim_start_of(s),
    decreases ws.len(),
{
    if ws.len() == 0 {
        assert(ws + s =~= s);
    } else {
        assert((ws + s)[0] == ws[0]);
        assert((ws + s).drop_first() =~= ws.drop_first() + s);
        assert forall|i: int| 0 <= i < ws.drop_first().len() implies is_whitespace(
            #[trigger] ws.drop_first()[i],
        ) by {
            assert(ws.drop_first()[i] == ws[i + 1]);
        }
        lemma_trim_start_skips(ws.drop_first(), s);
    }
}

/// Whitespace behind `s` does not change what `trim_end_of` gives.
pub proof fn lemma_trim_end_skips(s: Seq<char>, ws: Seq<char>)
    requires
        all_whitespace(ws),
    ensures
        trim_end_of(s + ws) == trim_end_of(s),
    decreases ws.len(),
{
    if ws.len() == 0 {
        assert(s + ws =~= s);
    } else {
        assert((s + ws).last() == ws.last());
        assert((s + ws).drop_last() =~= s + ws.drop_last());
        assert forall|i: int| 0 <= i < ws.drop_last().len() implies is_whitespace(
            #[trigger] ws.drop_last()[i],
        ) by {
            assert(ws.drop_last()[i] == ws[i]);
        }
        lemma_trim_end_skips(s, ws.drop_last());
    }
}

/// Whitespace behind `s` does not change what `trimmed` gives.
pub proof fn lemma_trimmed_skips_end(s: Seq<char>, ws: Seq<char>)
    requires
        all_whitespace(ws),
    ensures
        trimmed(s + ws) == trimmed(s),
    decreases s.len(),
{
    if s.len() == 0 {
        assert(s + ws =~= ws);
        assert(ws + Seq::<char>::empty() =~= ws);
        lemma_trim_start_skips(ws, Seq::<char>::empty());
    } else if is_whitespace(s[0]) {
        assert((s + ws)[0] == s[0]);
        assert((s + ws).drop_first() =~= s.drop_first() + ws);
        lemma_trimmed_skips_end(s.drop_first(), ws);
    } else {
        assert((s + ws)[0] == s[0]);
        lemma_trim_end_skips(s, ws);
    }
}

/// Whitespace around a text does not change what `trimmed` gives.
pub proof fn lemma_trimmed_skips_surroundings(before: Seq<char>, s: Seq<char>, after: Seq<char>)
    requires
        all_whitespace(before),
        all_whitespace(after),
    ensures
        trimmed(before + s + after) == trimmed(s),
{
    assert(before + s + after =~= before + (s + after));
    lemma_trim_start_skips(before, s + after);
    lemma_trimmed_skips_end(s, after);
}

/// Equality up to ASCII case is symmetric and transitive.
pub proof fn lemma_eq_ignore_case_chain(a: Seq<char>, b: Seq<char>, c: Seq<char>)
    requires
        eq_ignore_case(a, b),
    ensures
        eq_ignore_case(b, a),
        eq_ignore_case(a, c) == eq_ignore_case(b, c),
{
    if eq_ignore_case(a, c) {
        assert forall|i: int| 0 <= i < b.len() implies fold_case(#[trigger] b[i]) == fold_case(
            c[i],
        ) by {
            assert(fold_case(a[i]) == fold_case(b[i]));
        }
    }
    if eq_ignore_case(b, c) {
        assert forall|i: int| 0 <= i < a.len() implies fold_case(#[trigger] a[i]) == fold_case(
            c[i],
        ) by {
            assert(fold_case(b[i]) == fold_case(c[i]));
        }
    }
    assert forall|i: int| 0 <= i < b.len() implies fold_case(#[trigger] b[i]) == fold_case(
        a[i],
    ) by {
        assert(fold_case(a[i]) == fold_case(b[i]));
    }
}

} // verus!
