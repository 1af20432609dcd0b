//! Character-level text utilities shared by the library: the
//! mathematical definitions (trimming, ASCII case folding, substring
//! search, decimal rendering, joining) together with verified
//! executable counterparts that work on `Vec<char>` buffers.

use vstd::prelude::*;

verus! {

/// `String::push` appends one character at the end of the string.
pub assume_specification[ String::push ](s: &mut String, ch: char)
    ensures
        final(s)@ == old(s)@.push(ch),
;

/// What `char::is_whitespace` tests: the Unicode `White_Space` property.
pub open spec fn is_whitespace(c: char) -> bool {
    ||| c == ' '
    ||| ('\t' <= c && c <= '\r')
    ||| c == '\u{85}'
    ||| c == '\u{a0}'
    ||| c == '\u{1680}'
    ||| ('\u{2000}' <= c && c <= '\u{200a}')
    ||| c == '\u{2028}'
    ||| c == '\u{2029}'
    ||| c == '\u{202f}'
    ||| c == '\u{205f}'
    ||| c == '\u{3000}'
}

/// `s` without its leading whitespace (`str::trim_start`).
pub open spec fn trim_start(s: Seq<char>) -> Seq<char>
    decreases s.len(),
{
    if s.len() > 0 && is_whitespace(s[0]) {
        trim_start(s.drop_first())
    } else {
        s
    }
}

/// `s` without its trailing whitespace (`str::trim_end`).
pub open spec fn trim_end(s: Seq<char>) -> Seq<char>
    decreases s.len(),
{
    if s.len() > 0 && is_whitespace(s.last()) {
        trim_end(s.drop_last())
    } else {
        s
    }
}

/// `s` without leading and trailing whitespace (`str::trim`).
pub open spec fn trim(s: Seq<char>) -> Seq<char> {
    trim_end(trim_start(s))
}

pub open spec fn ascii_lower_char(c: char) -> char {
    if 'A' <= c && c <= 'Z' {
        ((c as u32) + 32) as char
    } else {
        c
    }
}

/// `str::to_ascii_lowercase`: ASCII letters folded, everything else kept.
pub open spec fn ascii_lower(s: Seq<char>) -> Seq<char> {
    s.map_values(|c: char| ascii_lower_char(c))
}

pub open spec fn is_ascii_digit(c: char) -> bool {
    '0' <= c && c <= '9'
}

pub open spec fn is_ascii_alphanumeric(c: char) -> bool {
    ||| is_ascii_digit(c)
    ||| ('a' <= c && c <= 'z')
    ||| ('A' <= c && c <= 'Z')
}

pub open spec fn is_ascii_hexdigit(c: char) -> bool {
    ||| is_ascii_digit(c)
    ||| ('a' <= c && c <= 'f')
    ||| ('A' <= c && c <= 'F')
}

pub open spec fn starts_with(s: Seq<char>, p: Seq<char>) -> bool {
    p.len() <= s.len() && s.take(p.len() as int) == p
}

pub open spec fn ends_with(s: Seq<char>, p: Seq<char>) -> bool {
    p.len() <= s.len() && s.skip(s.len() - p.len()) == p
}

/// `p` occurs in `s` at position `i`.
pub open spec fn occurs_at(s: Seq<char>, p: Seq<char>, i: int) -> bool {
    0 <= i && i + p.len() <= s.len() && s.subrange(i, i + p.len()) == p
}

/// `str::contains` with a string pattern.
pub open spec fn contains(s: Seq<char>, p: Seq<char>) -> bool {
    exists|i: int| occurs_at(s, p, i)
}

pub open spec fn digit_char(d: nat) -> char {
    ((d + 48) as u32) as char
}

/// Decimal rendering of a natural number, as `Display` prints integers.
pub open spec fn decimal(n: nat) -> Seq<char>
    decreases n,
{
    if n < 10 {
        seq![digit_char(n)]
    } else {
        decimal(n / 10).push(digit_char(n % 10))
    }
}

/// The items joined with `sep` between consecutive items (`[T]::join`).
pub open spec fn join(items: Seq<Seq<char>>, sep: Seq<char>) -> Seq<char>
    decreases items.len(),
{
    if items.len() == 0 {
        Seq::empty()
    } else if items.len() == 1 {
        items[0]
    } else {
        join(items.drop_last(), sep) + sep + items.last()
    }
}

/// The text split at every occurrence of `sep` (`str::split` with a
/// character pattern); always at least one piece.
pub open spec fn split_on(s: Seq<char>, sep: char) -> Seq<Seq<char>>
    decreases s.len(),
{
    if s.len() == 0 {
        seq![Seq::empty()]
    } else {
        let init = split_on(s.drop_last(), sep);
        if s.last() == sep {
            init.push(Seq::empty())
        } else {
            init.update(init.len() - 1, init.last().push(s.last()))
        }
    }
}

pub proof fn lemma_split_on_nonempty(s: Seq<char>, sep: char)
    ensures
        split_on(s, sep).len() >= 1,
    decreases s.len(),
{
    if s.len() > 0 {
        lemma_split_on_nonempty(s.drop_last(), sep);
    }
}

/// Every piece of a split occurs in the split text, and the last piece
/// is a suffix of it.
pub proof fn lemma_split_on_pieces_occur(s: Seq<char>, sep: char)
    ensures
        forall|k: int|
            0 <= k < split_on(s, sep).len() ==> contains(s, #[trigger] split_on(s, sep)[k]),
        split_on(s, sep).len() >= 1,
        occurs_at(s, split_on(s, sep).last(), s.len() - split_on(s, sep).last().len()),
    decreases s.len(),
{
    if s.len() == 0 {
        assert(s.subrange(0, 0) =~= split_on(s, sep)[0]);
        assert(occurs_at(s, split_on(s, sep)[0], 0));
        assert forall|k: int| 0 <= k < split_on(s, sep).len() implies contains(s, #[trigger] split_on(s, sep)[k]) by {
            assert(occurs_at(s, split_on(s, sep)[k], 0));
        }
    } else {
        let t = s.drop_last();
        lemma_split_on_pieces_occur(t, sep);
        let init = split_on(t, sep);
        let pieces = split_on(s, sep);
        assert forall|k: int, i: int| 0 <= k < init.len() && #[trigger] occurs_at(t, init[k], i)
            implies occurs_at(s, init[k], i) by {
            assert(s.subrange(i, i + init[k].len()) =~= t.subrange(i, i + init[k].len()));
        }
        let last = init.last();
        let at = t.len() - last.len();
        if s.last() == sep {
            assert(pieces.last() == Seq::<char>::empty());
            assert(s.subrange(s.len() as int, s.len() as int) =~= Seq::<char>::empty());
            assert(occurs_at(s, pieces.last(), s.len() as int));
            assert forall|k: int| 0 <= k < pieces.len() implies contains(s, #[trigger] pieces[k]) by {
                if k < init.len() {
                    assert(pieces[k] == init[k]);
                    assert(contains(t, init[k]));
                    let i = choose|i: int| occurs_at(t, init[k], i);
                    assert(occurs_at(s, init[k], i));
                } else {
                    assert(pieces[k] == pieces.last());
                    assert(occurs_at(s, pieces[k], s.len() as int));
                }
            }
        } else {
            assert(s.subrange(at, at + last.len() + 1) =~= t.subrange(at, at + last.len()).push(s.last()));
            assert(occurs_at(s, last.push(s.last()), at));
            assert forall|k: int| 0 <= k < pieces.len() implies contains(s, #[trigger] pieces[k]) by {
                if k < init.len() - 1 {
                    assert(pieces[k] == init[k]);
                    assert(contains(t, init[k]));
                    let i = choose|i: int| occurs_at(t, init[k], i);
                    assert(occurs_at(s, init[k], i));
                } else {
                    assert(pieces[k] == last.push(s.last()));
                    assert(occurs_at(s, pieces[k], at));
                }
            }
        }
    }
}

/// Containment is transitive.
pub proof fn lemma_contains_transitive(s: Seq<char>, piece: Seq<char>, p: Seq<char>)
    requires
        contains(s, piece),
        contains(piece, p),
    ensures
        contains(s, p),
{
    let i = choose|i: int| occurs_at(s, piece, i);
    let j = choose|j: int| occurs_at(piece, p, j);
    assert(s.subrange(i + j, i + j + p.len()) =~= piece.subrange(j, j + p.len()));
    assert(occurs_at(s, p, i + j));
}

/// The UTF-8 bytes of a string (`str::as_bytes`, copied).
pub fn str_bytes(s: &str) -> (v: Vec<u8>)
    ensures
        v@ == vstd::utf8::encode_utf8(s@),
{
    let b = s.as_bytes();
    let mut v: Vec<u8> = Vec::new();
    let mut i: usize = 0;
    while i < b.len()
        invariant
            i <= b@.len(),
            b@ == vstd::utf8::encode_utf8(s@),
            v@ == b@.take(i as int),
        decreases b@.len() - i,
    {
        v.push(b[i]);
        i += 1;
        assert(b@.take(i as int) =~= b@.take(i - 1).push(b@[i - 1]));
    }
    assert(b@.take(b@.len() as int) =~= b@);
    v
}

/// The text split into lines at every newline character.
pub open spec fn split_lines(s: Seq<char>) -> Seq<Seq<char>> {
    split_on(s, '\n')
}

/// The pieces of `cs` that the index ranges designate.
pub open spec fn range_views(cs: Seq<char>, ranges: Seq<(usize, usize)>) -> Seq<Seq<char>> {
    ranges.map_values(|r: (usize, usize)| cs.subrange(r.0 as int, r.1 as int))
}

/// Index ranges, inside `cs[lo..hi]`, of the pieces of `cs[lo..hi]` split at `sep`.
pub fn split_ranges(cs: &Vec<char>, lo: usize, hi: usize, sep: char) -> (r: Vec<(usize, usize)>)
    requires
        lo <= hi <= cs.len(),
    ensures
        range_views(cs@, r@) == split_on(cs@.subrange(lo as int, hi as int), sep),
        r@.len() >= 1,
        forall|k: int| 0 <= k < r@.len() ==> lo <= (#[trigger] r@[k]).0 <= r@[k].1 <= hi,
{
    let mut segs: Vec<(usize, usize)> = Vec::new();
    let mut cur = lo;
    let mut i = lo;
    assert(cs@.subrange(lo as int, lo as int) =~= Seq::<char>::empty());
    assert(range_views(cs@, segs@) =~= Seq::<Seq<char>>::empty());
    while i < hi
        invariant
            lo <= cur <= i <= hi <= cs.len(),
            forall|k: int| 0 <= k < segs@.len() ==> lo <= (#[trigger] segs@[k]).0 <= segs@[k].1 <= cur,
            split_on(cs@.subrange(lo as int, i as int), sep) == range_views(cs@, segs@).push(
                cs@.subrange(cur as int, i as int),
            ),
        decreases hi - i,
    {
        let ghost old_segs = segs@;
        let ghost old_cur = cur;
        assert(cs@.subrange(lo as int, i + 1).drop_last() =~= cs@.subrange(lo as int, i as int));
        if cs[i] == sep {
            segs.push((cur, i));
            cur = i + 1;
            assert(range_views(cs@, segs@) =~= range_views(cs@, old_segs).push(
                cs@.subrange(old_cur as int, i as int),
            ));
            assert(cs@.subrange(cur as int, i + 1) =~= Seq::<char>::empty());
        } else {
            assert(cs@.subrange(cur as int, i + 1) =~= cs@.subrange(cur as int, i as int).push(
                cs@[i as int],
            ));
        }
        i += 1;
        assert(split_on(cs@.subrange(lo as int, i as int), sep) =~= range_views(cs@, segs@).push(
            cs@.subrange(cur as int, i as int),
        ));
    }
    let ghost before = segs@;
    segs.push((cur, hi));
    assert(range_views(cs@, segs@) =~= range_views(cs@, before).push(
        cs@.subrange(cur as int, hi as int),
    ));
    segs
}

/// The characters of `s`, in order.
pub fn chars_of(s: &str) -> (v: Vec<char>)
    ensures
        v@ == s@,
{
    let mut v: Vec<char> = Vec::new();
    for c in it: s.chars()
        invariant
            v@ == it.seq().take(it.index() as int),
            it.seq() == s@,
    {
        v.push(c);
    }
    v
}

/// A `String` holding `cs[from..to]`.
pub fn string_from(cs: &Vec<char>, from: usize, to: usize) -> (r: String)
    requires
        from <= to <= cs.len(),
    ensures
        r@ == cs@.subrange(from as int, to as int),
{
    let mut r = String::new();
    let mut i = from;
    while i < to
        invariant
            from <= i <= to <= cs.len(),
            r@ == cs@.subrange(from as int, i as int),
        decreases to - i,
    {
        r.push(cs[i]);
        i += 1;
    }
    r
}

/// Appends `cs[from..to]` to `out`.
pub fn push_range(out: &mut String, cs: &Vec<char>, from: usize, to: usize)
    requires
        from <= to <= cs.len(),
    ensures
        final(out)@ == old(out)@ + cs@.subrange(from as int, to as int),
{
    let mut i = from;
    while i < to
        invariant
            from <= i <= to <= cs.len(),
            out@ == old(out)@ + cs@.subrange(from as int, i as int),
        decreases to - i,
    {
        out.push(cs[i]);
        i += 1;
    }
}

pub fn is_whitespace_char(c: char) -> (b: bool)
    ensures
        b == is_whitespace(c),
{
    c == ' ' || ('\t' <= c && c <= '\r') || c == '\u{85}' || c == '\u{a0}' || c == '\u{1680}'
        || ('\u{2000}' <= c && c <= '\u{200a}') || c == '\u{2028}' || c == '\u{2029}'
        || c == '\u{202f}' || c == '\u{205f}' || c == '\u{3000}'
}

pub fn lower_char(c: char) -> (r: char)
    ensures
        r == ascii_lower_char(c),
{
    if 'A' <= c && c <= 'Z' {
        ((c as u8) + 32) as char
    } else {
        c
    }
}

/// ASCII-lowercased copy of `cs`.
pub fn lower_chars(cs: &Vec<char>) -> (r: Vec<char>)
    ensures
        r@ == ascii_lower(cs@),
{
    let mut r: Vec<char> = Vec::new();
    let mut i: usize = 0;
    while i < cs.len()
        invariant
            i <= cs.len(),
            r@ == ascii_lower(cs@.take(i as int)),
        decreases cs.len() - i,
    {
        r.push(lower_char(cs[i]));
        i += 1;
        assert(ascii_lower(cs@.take(i as int)) =~= ascii_lower(cs@.take(i - 1)).push(
            ascii_lower_char(cs@[i - 1]),
        ));
    }
    assert(cs@.take(cs.len() as int) =~= cs@);
    r
}

/// Position just past the leading whitespace of `cs[lo..hi]`.
pub fn skip_whitespace(cs: &Vec<char>, lo: usize, hi: usize) -> (k: usize)
    requires
        lo <= hi <= cs.len(),
    ensures
        lo <= k <= hi,
        cs@.subrange(k as int, hi as int) == trim_start(cs@.subrange(lo as int, hi as int)),
{
    let mut k = lo;
    while k < hi && is_whitespace_char(cs[k])
        invariant
            lo <= k <= hi <= cs.len(),
            trim_start(cs@.subrange(lo as int, hi as int)) == trim_start(
                cs@.subrange(k as int, hi as int),
            ),
        decreases hi - k,
    {
        assert(cs@.subrange(k as int, hi as int).drop_first() =~= cs@.subrange(k + 1, hi as int));
        k += 1;
    }
    k
}

/// Position just before the trailing whitespace of `cs[lo..hi]`.
pub fn back_whitespace(cs: &Vec<char>, lo: usize, hi: usize) -> (k: usize)
    requires
        lo <= hi <= cs.len(),
    ensures
        lo <= k <= hi,
        cs@.subrange(lo as int, k as int) == trim_end(cs@.subrange(lo as int, hi as int)),
{
    let mut k = hi;
    while k > lo && is_whitespace_char(cs[k - 1])
        invariant
            lo <= k <= hi <= cs.len(),
            trim_end(cs@.subrange(lo as int, hi as int)) == trim_end(
                cs@.subrange(lo as int, k as int),
            ),
        decreases k - lo,
    {
        assert(cs@.subrange(lo as int, k as int).drop_last() =~= cs@.subrange(lo as int, k - 1));
        k -= 1;
    }
    k
}

/// Bounds of `trim(cs[lo..hi])` inside `cs`.
pub fn trim_bounds(cs: &Vec<char>, lo: usize, hi: usize) -> (r: (usize, usize))
    requires
        lo <= hi <= cs.len(),
    ensures
        lo <= r.0 <= r.1 <= hi,
        cs@.subrange(r.0 as int, r.1 as int) == trim(cs@.subrange(lo as int, hi as int)),
{
    let a = skip_whitespace(cs, lo, hi);
    let b = back_whitespace(cs, a, hi);
    (a, b)
}

/// Whether `p` occurs in `cs` at position `i`.
pub fn occurs_at_exec(cs: &Vec<char>, p: &Vec<char>, i: usize) -> (b: bool)
    ensures
        b == occurs_at(cs@, p@, i as int),
{
    if i > cs.len() || p.len() > cs.len() - i {
        return false;
    }
    let mut k: usize = 0;
    while k < p.len()
        invariant
            k <= p.len(),
            i + p.len() <= cs.len(),
            forall|m: int| 0 <= m < k ==> cs@[i + m] == p@[m],
        decreases p.len() - k,
    {
        if cs[i + k] != p[k] {
            assert(cs@.subrange(i as int, i + p.len())[k as int] != p@[k as int]);
            return false;
        }
        k += 1;
    }
    assert(cs@.subrange(i as int, i + p.len()) =~= p@);
    true
}

/// First position at or after `from` where `p` occurs in `cs`.
pub fn find_from(cs: &Vec<char>, p: &Vec<char>, from: usize) -> (r: Option<usize>)
    ensures
        match r {
            Some(i) => from <= i && occurs_at(cs@, p@, i as int) && forall|j: int|
                from <= j < i ==> !occurs_at(cs@, p@, j),
            None => forall|j: int| from <= j ==> !occurs_at(cs@, p@, j),
        },
{
    let mut i = from;
    while i < cs.len()
        invariant
            from <= i,
            forall|j: int| from <= j < i ==> !occurs_at(cs@, p@, j),
        decreases cs.len() - i,
    {
        if occurs_at_exec(cs, p, i) {
            return Some(i);
        }
        i += 1;
    }
    if occurs_at_exec(cs, p, i) {
        return Some(i);
    }
    assert forall|j: int| from <= j implies !occurs_at(cs@, p@, j) by {
        if j > i {
            assert(!(j + p@.len() <= cs@.len()));
        }
    }
    None
}

/// Whether `p` occurs anywhere in `cs`.
pub fn contains_exec(cs: &Vec<char>, p: &Vec<char>) -> (b: bool)
    ensures
        b == contains(cs@, p@),
{
    match find_from(cs, p, 0) {
        Some(i) => true,
        None => false,
    }
}

/// Appends the decimal rendering of `n` to `out`.
pub fn push_decimal(out: &mut String, n: u64)
    ensures
        final(out)@ == old(out)@ + decimal(n as nat),
    decreases n,
{
    if n >= 10 {
        push_decimal(out, n / 10);
    }
    let d = (n % 10) as u8;
    out.push((d + 48) as char);
    assert(decimal(n as nat) =~= if n < 10 {
        seq![digit_char(n as nat)]
    } else {
        decimal((n / 10) as nat).push(digit_char((n % 10) as nat))
    });
}

/// Appends `s` to `out`.
pub fn push_str(out: &mut String, s: &str)
    ensures
        final(out)@ == old(out)@ + s@,
{
    out.append(s);
}


/// Whether `cs[lo..hi]` equals `p`.
pub fn range_eq(cs: &Vec<char>, lo: usize, hi: usize, p: &Vec<char>) -> (b: bool)
    requires
        lo <= hi <= cs.len(),
    ensures
        b == (cs@.subrange(lo as int, hi as int) == p@),
{
    if hi - lo != p.len() {
        assert(cs@.subrange(lo as int, hi as int).len() != p@.len());
        return false;
    }
    occurs_at_exec(cs, p, lo)
}

/// Whether every character of `cs[lo..hi]` is an ASCII hex digit.
pub fn all_hex_range(cs: &Vec<char>, lo: usize, hi: usize) -> (b: bool)
    requires
        lo <= hi <= cs.len(),
    ensures
        b == forall|i: int|
            0 <= i < hi - lo ==> is_ascii_hexdigit(#[trigger] cs@.subrange(lo as int, hi as int)[i]),
{
    let mut k = lo;
    while k < hi
        invariant
            lo <= k <= hi <= cs.len(),
            forall|m: int| lo <= m < k ==> is_ascii_hexdigit(#[trigger] cs@[m]),
        decreases hi - k,
    {
        let c = cs[k];
        if !(('0' <= c && c <= '9') || ('a' <= c && c <= 'f') || ('A' <= c && c <= 'F')) {
            assert(cs@.subrange(lo as int, hi as int)[k - lo] == c);
            return false;
        }
        k += 1;
    }
    assert forall|i: int| 0 <= i < hi - lo implies is_ascii_hexdigit(
        #[trigger] cs@.subrange(lo as int, hi as int)[i],
    ) by {
        assert(cs@.subrange(lo as int, hi as int)[i] == cs@[lo + i]);
    }
    true
}

/// A `String` holding the ASCII-lowercased `cs[lo..hi]`.
pub fn lower_string(cs: &Vec<char>, lo: usize, hi: usize) -> (r: String)
    requires
        lo <= hi <= cs.len(),
    ensures
        r@ == ascii_lower(cs@.subrange(lo as int, hi as int)),
{
    let mut r = String::new();
    let mut k = lo;
    while k < hi
        invariant
            lo <= k <= hi <= cs.len(),
            r@ == ascii_lower(cs@.subrange(lo as int, k as int)),
        decreases hi - k,
    {
        r.push(lower_char(cs[k]));
        k += 1;
        assert(ascii_lower(cs@.subrange(lo as int, k as int)) =~= ascii_lower(
            cs@.subrange(lo as int, k - 1),
        ).push(ascii_lower_char(cs@[k - 1])));
    }
    r
}


/// The views of a list of strings.
pub open spec fn string_views(v: Seq<String>) -> Seq<Seq<char>> {
    v.map_values(|s: String| s@)
}

pub proof fn lemma_join_push(items: Seq<Seq<char>>, x: Seq<char>, sep: Seq<char>)
    ensures
        join(items.push(x), sep) == if items.len() == 0 {
            x
        } else {
            join(items, sep) + sep + x
        },
{
    assert(items.push(x).drop_last() =~= items);
}

/// Appends `items[from..to]` joined with `sep`.
pub fn push_joined(out: &mut String, items: &Vec<String>, from: usize, to: usize, sep: &str)
    requires
        from <= to <= items@.len(),
    ensures
        final(out)@ == old(out)@ + join(string_views(items@.subrange(from as int, to as int)), sep@),
{
    let ghost start = out@;
    let mut i = from;
    while i < to
        invariant
            from <= i <= to <= items@.len(),
            out@ == start + join(string_views(items@.subrange(from as int, i as int)), sep@),
        decreases to - i,
    {
        let ghost before = string_views(items@.subrange(from as int, i as int));
        assert(string_views(items@.subrange(from as int, i + 1)) =~= before.push(items@[i as int]@));
        proof {
            lemma_join_push(before, items@[i as int]@, sep@);
        }
        if i > from {
            push_str(out, sep);
        }
        push_str(out, items[i].as_str());
        assert(before.len() == i - from);
        i += 1;
    }
}


/// A list shortened for display: its first `shown` items joined with
/// `, `, followed by `, … +N more` when `N` items were left out.
pub open spec fn preview(items: Seq<Seq<char>>, shown: nat) -> Seq<char> {
    if items.len() > shown {
        join(items.take(shown as int), ", "@) + ", … +"@ + decimal((items.len() - shown) as nat)
            + " more"@
    } else {
        join(items, ", "@)
    }
}

/// Appends `preview(items, shown)`.
pub fn push_preview(out: &mut String, items: &Vec<String>, shown: usize)
    ensures
        final(out)@ == old(out)@ + preview(string_views(items@), shown as nat),
{
    if items.len() > shown {
        push_joined(out, items, 0, shown, ", ");
        assert(string_views(items@.subrange(0, shown as int)) =~= string_views(items@).take(
            shown as int,
        ));
        push_str(out, ", … +");
        push_decimal(out, (items.len() - shown) as u64);
        push_str(out, " more");
    } else {
        push_joined(out, items, 0, items.len(), ", ");
        assert(items@.subrange(0, items@.len() as int) =~= items@);
    }
}


/// Splitting at `sep` a text that does not contain it gives the text itself.
pub proof fn lemma_split_on_no_sep(s: Seq<char>, sep: char)
    requires
        forall|i: int| 0 <= i < s.len() ==> #[trigger] s[i] != sep,
    ensures
        split_on(s, sep) == seq![s],
    decreases s.len(),
{
    if s.len() > 0 {
        lemma_split_on_no_sep(s.drop_last(), sep);
        assert(s.drop_last().push(s.last()) =~= s);
    } else {
        assert(s =~= Seq::<char>::empty());
    }
}

/// Splitting at `sep` a text `a <sep> b` splits `a` and `b` separately.
pub proof fn lemma_split_on_concat(a: Seq<char>, b: Seq<char>, sep: char)
    ensures
        split_on(a + seq![sep] + b, sep) == split_on(a, sep) + split_on(b, sep),
    decreases b.len(),
{
    let x = a + seq![sep] + b;
    if b.len() == 0 {
        assert(x.drop_last() =~= a);
        assert(x.last() == sep);
        assert(split_on(a, sep).push(Seq::empty()) =~= split_on(a, sep) + seq![Seq::<char>::empty()]);
    } else {
        assert(x.drop_last() =~= a + seq![sep] + b.drop_last());
        lemma_split_on_concat(a, b.drop_last(), sep);
        lemma_split_on_nonempty(b.drop_last(), sep);
        lemma_split_on_nonempty(a, sep);
        let sa = split_on(a, sep);
        let sb = split_on(b.drop_last(), sep);
        if b.last() == sep {
            assert((sa + sb).push(Seq::empty()) =~= sa + sb.push(Seq::empty()));
        } else {
            assert((sa + sb).update(sa.len() + sb.len() - 1, (sa + sb).last().push(b.last())) =~= sa
                + sb.update(sb.len() - 1, sb.last().push(b.last())));
        }
    }
}

/// Trimming leaves a text that starts and ends with non-whitespace unchanged.
pub proof fn lemma_trim_noop(s: Seq<char>)
    requires
        s.len() > 0,
        !is_whitespace(s[0]),
        !is_whitespace(s.last()),
    ensures
        trim(s) == s,
{
}

/// ASCII lowercasing leaves text without uppercase ASCII letters unchanged.
pub proof fn lemma_ascii_lower_noop(s: Seq<char>)
    requires
        forall|i: int| 0 <= i < s.len() ==> !('A' <= #[trigger] s[i] && s[i] <= 'Z'),
    ensures
        ascii_lower(s) == s,
{
    assert(ascii_lower(s) =~= s);
}

} // verus!
