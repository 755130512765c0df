use vstd::prelude::*;

verus! {

// ---------------------------------------------------------------------------
// Spec-level string machinery. Exec code works on `Vec<char>` buffers (or on
// `&str` directly for the short comparisons); every function is specified
// against the `Seq<char>` view.
// ---------------------------------------------------------------------------

/// The needle `n` occurs in `h` starting exactly at index `i`.
pub open spec fn match_at(h: Seq<char>, n: Seq<char>, i: int) -> bool {
    0 <= i && i + n.len() <= h.len() && h.subrange(i, i + n.len() as int) == n
}

/// `n` occurs somewhere in `h`.
pub open spec fn contains_seq(h: Seq<char>, n: Seq<char>) -> bool {
    exists|i: int| match_at(h, n, i)
}

/// `h` ends with `n`.
pub open spec fn ends_with_seq(h: Seq<char>, n: Seq<char>) -> bool {
    n.len() <= h.len() && h.subrange(h.len() - n.len(), h.len() as int) == n
}

/// Index of the first occurrence of `n` in `h` at or after `from`, or -1.
/// An empty needle is reported as absent.
pub open spec fn find_at(h: Seq<char>, n: Seq<char>, from: int) -> int
    decreases h.len() - from,
{
    if n.len() <= 0 || from + n.len() > h.len() {
        -1
    } else if h.subrange(from, from + n.len() as int) == n {
        from
    } else {
        find_at(h, n, from + 1)
    }
}

/// What `find_at` returns: the first match position at or after `from`,
/// and -1 exactly when there is none.
pub proof fn lemma_find_at(h: Seq<char>, n: Seq<char>, from: int)
    requires
        0 <= from,
        n.len() > 0,
    ensures
        find_at(h, n, from) == -1 || find_at(h, n, from) >= from,
        find_at(h, n, from) == -1 ==> forall|j: int| from <= j ==> !match_at(h, n, j),
        find_at(h, n, from) >= 0 ==> from <= find_at(h, n, from) && match_at(
            h,
            n,
            find_at(h, n, from),
        ),
        find_at(h, n, from) >= 0 ==> forall|j: int|
            from <= j < find_at(h, n, from) ==> !match_at(h, n, j),
    decreases h.len() - from,
{
    if from + n.len() > h.len() {
        assert forall|j: int| from <= j implies !match_at(h, n, j) by {
            assert(j + n.len() >= from + n.len());
        }
    } else if h.subrange(from, from + n.len() as int) == n {
    } else {
        lemma_find_at(h, n, from + 1);
        assert(!match_at(h, n, from));
    }
}

/// `contains_seq` holds exactly when a search from the start succeeds.
pub proof fn lemma_contains_via_find(h: Seq<char>, n: Seq<char>)
    requires
        n.len() > 0,
    ensures
        contains_seq(h, n) == (find_at(h, n, 0) >= 0),
{
    lemma_find_at(h, n, 0);
    if find_at(h, n, 0) >= 0 {
        assert(match_at(h, n, find_at(h, n, 0)));
    } else {
        assert forall|i: int| !match_at(h, n, i) by {
            if 0 <= i {
                assert(!match_at(h, n, i));
            }
        }
    }
}

// ---------------------------------------------------------------------------
// Trusted appendix: building a `String` character by character.
// ---------------------------------------------------------------------------

/// Relies on `alloc::string::String::push`: std documents that it appends
/// the given character to the end of the string.
pub assume_specification[ String::push ](s: &mut String, ch: char)
    ensures
        final(s)@ == old(s)@.push(ch),
;

// ---------------------------------------------------------------------------
// Exec helpers.
// ---------------------------------------------------------------------------

/// The characters of `s` as a vector.
pub fn chars_of(s: &str) -> (r: Vec<char>)
    ensures
        r@ == s@,
{
    let len: usize = s.unicode_len();
    let mut r: Vec<char> = Vec::new();
    let mut i: usize = 0;
    while i < len
        invariant
            i <= len,
            len == s@.len(),
            r@ == s@.subrange(0, i as int),
        decreases len - i,
    {
        r.push(s.get_char(i));
        assert(r@ =~= s@.subrange(0, i + 1 as int));
        i = i + 1;
    }
    assert(r@ =~= s@);
    r
}

/// The string holding exactly the characters of `v`.
pub fn string_from_chars(v: &Vec<char>) -> (r: String)
    ensures
        r@ == v@,
{
    let mut r: String = String::new();
    let mut i: usize = 0;
    while i < v.len()
        invariant
            i <= v.len(),
            r@ == v@.subrange(0, i as int),
        decreases v.len() - i,
    {
        r.push(v[i]);
        assert(r@ =~= v@.subrange(0, i + 1 as int));
        i = i + 1;
    }
    assert(r@ =~= v@);
    r
}

/// Character-wise string equality.
pub fn str_eq(a: &str, b: &str) -> (r: bool)
    ensures
        r == (a@ == b@),
{
    let la: usize = a.unicode_len();
    let lb: usize = b.unicode_len();
    if la != lb {
        return false;
    }
    let mut i: usize = 0;
    while i < la
        invariant
            i <= la,
            la == a@.len(),
            la == b@.len(),
            forall|j: int| 0 <= j < i ==> a@[j] == b@[j],
        decreases la - i,
    {
        if a.get_char(i) != b.get_char(i) {
            return false;
        }
        i = i + 1;
    }
    assert(a@ =~= b@);
    true
}

/// A copy of `v[a..b]`.
pub fn subvec(v: &Vec<char>, a: usize, b: usize) -> (r: Vec<char>)
    requires
        a <= b <= v@.len(),
    ensures
        r@ == v@.subrange(a as int, b as int),
{
    let mut r: Vec<char> = Vec::new();
    let mut i: usize = a;
    while i < b
        invariant
            a <= i <= b <= v@.len(),
            r@ == v@.subrange(a as int, i as int),
        decreases b - i,
    {
        r.push(v[i]);
        assert(r@ =~= v@.subrange(a as int, i + 1 as int));
        i = i + 1;
    }
    r
}

/// First occurrence of `n` in `h` at or after `from`, as `find_at` describes.
pub fn find_chars_from(h: &Vec<char>, n: &Vec<char>, from: usize) -> (r: Option<usize>)
    ensures
        match r {
            Some(i) => find_at(h@, n@, from as int) == i as int,
            None => find_at(h@, n@, from as int) == -1,
        },
{
    let hl: usize = h.len();
    let nl: usize = n.len();
    if nl == 0 || nl > hl || from > hl - nl {
        assert(find_at(h@, n@, from as int) == -1);
        return None;
    }
    let bound: usize = hl - nl;
    let mut i: usize = from;
    while i <= bound
        invariant
            from <= i,
            i <= bound + 1,
            bound == hl - nl,
            1 <= nl <= hl,
            hl == h@.len(),
            nl == n@.len(),
            find_at(h@, n@, from as int) == find_at(h@, n@, i as int),
        decreases bound + 1 - i,
    {
        let mut k: usize = 0;
        let mut same: bool = true;
        while k < nl
            invariant
                k <= nl,
                i + nl <= hl,
                hl == h@.len(),
                nl == n@.len(),
                same ==> forall|j: int| 0 <= j < k ==> h@[i + j] == n@[j],
                !same ==> h@.subrange(i as int, i + nl as int) != n@,
            decreases nl - k,
        {
            if h[i + k] != n[k] {
                assert(h@.subrange(i as int, i + nl as int)[k as int] != n@[k as int]);
                same = false;
                k = nl;
            } else {
                k = k + 1;
            }
        }
        if same {
            assert(h@.subrange(i as int, i + nl as int) =~= n@);
            assert(find_at(h@, n@, i as int) == i as int);
            return Some(i);
        }
        assert(find_at(h@, n@, i as int) == find_at(h@, n@, i + 1 as int));
        i = i + 1;
    }
    assert(find_at(h@, n@, i as int) == -1);
    None
}

/// Whether `n` occurs in `h`.
pub fn contains_str(h: &str, n: &str) -> (r: bool)
    ensures
        r == contains_seq(h@, n@),
{
    let nv = chars_of(n);
    if nv.len() == 0 {
        assert(match_at(h@, n@, 0)) by {
            assert(h@.subrange(0, 0) =~= n@);
        }
        return true;
    }
    let hv = chars_of(h);
    let found = find_chars_from(&hv, &nv, 0);
    proof {
        lemma_contains_via_find(h@, n@);
    }
    found.is_some()
}

/// Whether `h` ends with `n`.
pub fn ends_with_str(h: &str, n: &str) -> (r: bool)
    ensures
        r == ends_with_seq(h@, n@),
{
    let hl: usize = h.unicode_len();
    let nl: usize = n.unicode_len();
    if nl > hl {
        return false;
    }
    let off: usize = hl - nl;
    let mut i: usize = 0;
    while i < nl
        invariant
            i <= nl,
            off == hl - nl,
            nl <= hl,
            hl == h@.len(),
            nl == n@.len(),
            forall|j: int| 0 <= j < i ==> h@[off + j] == n@[j],
        decreases nl - i,
    {
        if h.get_char(off + i) != n.get_char(i) {
            assert(h@.subrange(off as int, hl as int)[i as int] != n@[i as int]);
            return false;
        }
        i = i + 1;
    }
    assert(h@.subrange(off as int, hl as int) =~= n@);
    true
}

// ---------------------------------------------------------------------------
// Whitespace, trimming, quote-stripping, comma-splitting.
// ---------------------------------------------------------------------------

/// The Unicode `White_Space` characters, the set `char::is_whitespace` tests.
pub open spec fn is_ws_char(c: char) -> bool {
    let u = c as u32;
    (9 <= u && u <= 13) || u == 32 || u == 0x85 || u == 0xA0 || u == 0x1680 || (0x2000 <= u && u
        <= 0x200A) || u == 0x2028 || u == 0x2029 || u == 0x202F || u == 0x205F || u == 0x3000
}

/// Exec test for `is_ws_char`.
pub fn is_ws(c: char) -> (r: bool)
    ensures
        r == is_ws_char(c),
{
    let u: u32 = c as u32;
    (9 <= u && u <= 13) || u == 32 || u == 0x85 || u == 0xA0 || u == 0x1680 || (0x2000 <= u && u
        <= 0x200A) || u == 0x2028 || u == 0x2029 || u == 0x202F || u == 0x205F || u == 0x3000
}

/// Index of the first character at or after `i` that fails `pred`; `pred` is
/// encoded by `quote`: quote-stripping trims `"`, otherwise whitespace.
pub open spec fn skip_start(s: Seq<char>, i: int, quote: bool) -> int
    decreases s.len() - i,
{
    if i < 0 || i >= s.len() {
        i
    } else if (quote && s[i] == '"') || (!quote && is_ws_char(s[i])) {
        skip_start(s, i + 1, quote)
    } else {
        i
    }
}

/// One past the last character before `i` that fails `pred` (see
/// `skip_start` for `quote`).
pub open spec fn skip_end(s: Seq<char>, i: int, quote: bool) -> int
    decreases i,
{
    if i <= 0 || i > s.len() {
        i
    } else if (quote && s[i - 1] == '"') || (!quote && is_ws_char(s[i - 1])) {
        skip_end(s, i - 1, quote)
    } else {
        i
    }
}

/// `str::trim`: the input without leading and trailing whitespace.
pub open spec fn trim_spec(s: Seq<char>) -> Seq<char> {
    let a = skip_start(s, 0, false);
    let b = skip_end(s, s.len() as int, false);
    if a <= b {
        s.subrange(a, b)
    } else {
        Seq::empty()
    }
}

/// `str::trim_matches('"')`: the input without leading and trailing quotes.
pub open spec fn trim_quotes_spec(s: Seq<char>) -> Seq<char> {
    let a = skip_start(s, 0, true);
    let b = skip_end(s, s.len() as int, true);
    if a <= b {
        s.subrange(a, b)
    } else {
        Seq::empty()
    }
}

fn trim_generic(v: &Vec<char>, quote: bool) -> (r: Vec<char>)
    ensures
        r@ == (if quote {
            trim_quotes_spec(v@)
        } else {
            trim_spec(v@)
        }),
{
    let len: usize = v.len();
    let mut a: usize = 0;
    while a < len && ((quote && v[a] == '"') || (!quote && is_ws(v[a])))
        invariant
            a <= len,
            len == v@.len(),
            skip_start(v@, 0, quote) == skip_start(v@, a as int, quote),
        decreases len - a,
    {
        assert(skip_start(v@, a as int, quote) == skip_start(v@, a + 1 as int, quote));
        a = a + 1;
    }
    assert(skip_start(v@, a as int, quote) == a as int);
    let mut b: usize = len;
    while b > a && ((quote && v[b - 1] == '"') || (!quote && is_ws(v[b - 1])))
        invariant
            a <= b <= len,
            len == v@.len(),
            skip_end(v@, len as int, quote) == skip_end(v@, b as int, quote),
        decreases b,
    {
        assert(skip_end(v@, b as int, quote) == skip_end(v@, b - 1 as int, quote));
        b = b - 1;
    }
    let r = subvec(v, a, b);
    proof {
        let sa = skip_start(v@, 0, quote);
        let sb = skip_end(v@, len as int, quote);
        if b > a {
            assert(sb == b as int);
        } else {
            // Both scans met: the result is empty whichever side the spec
            // bounds land on.
            lemma_skip_end_bounds(v@, b as int, quote);
            assert(sb <= a as int);
            if sa <= sb {
                assert(sa == sb);
                assert(v@.subrange(sa, sb) =~= v@.subrange(a as int, b as int));
            }
            assert(v@.subrange(a as int, b as int) =~= Seq::<char>::empty());
        }
    }
    r
}

proof fn lemma_skip_end_bounds(s: Seq<char>, i: int, quote: bool)
    requires
        0 <= i <= s.len(),
    ensures
        0 <= skip_end(s, i, quote) <= i,
    decreases i,
{
    if i > 0 && ((quote && s[i - 1] == '"') || (!quote && is_ws_char(s[i - 1]))) {
        lemma_skip_end_bounds(s, i - 1, quote);
    }
}

/// `str::split(',')` of `s[from..]`: the chunks between commas, in order.
pub open spec fn split_comma_from(s: Seq<char>, from: int) -> Seq<Seq<char>>
    decreases s.len() - from,
{
    let i = find_at(s, seq![','], from);
    if from <= i < s.len() {
        seq![s.subrange(from, i)] + split_comma_from(s, i + 1)
    } else {
        seq![s.subrange(from, s.len() as int)]
    }
}

/// `str::split(',')` of the whole input.
pub open spec fn split_comma(s: Seq<char>) -> Seq<Seq<char>> {
    split_comma_from(s, 0)
}

/// The comma-separated chunks of `v`, as `split_comma` describes.
pub fn split_comma_vec(v: &Vec<char>) -> (r: Vec<Vec<char>>)
    ensures
        r@.map_values(|p: Vec<char>| p@) == split_comma(v@),
{
    let comma: Vec<char> = vec![','];
    let vlen: usize = v.len();
    let mut parts: Vec<Vec<char>> = Vec::new();
    let mut pos: usize = 0;
    loop
        invariant
            pos <= v@.len(),
            vlen == v@.len(),
            comma@ == seq![','],
            split_comma(v@) == parts@.map_values(|p: Vec<char>| p@) + split_comma_from(
                v@,
                pos as int,
            ),
        decreases v@.len() - pos,
    {
        let next = find_chars_from(v, &comma, pos);
        match next {
            Some(i) => {
                proof {
                    lemma_find_at(v@, comma@, pos as int);
                }
                let piece = subvec(v, pos, i);
                let ghost pre = parts@;
                parts.push(piece);
                assert(split_comma_from(v@, pos as int) == seq![v@.subrange(pos as int, i as int)]
                    + split_comma_from(v@, i + 1 as int));
                assert(parts@.map_values(|p: Vec<char>| p@) =~= pre.map_values(
                    |p: Vec<char>| p@,
                ).push(piece@));
                assert(pre.map_values(|p: Vec<char>| p@).push(piece@) + split_comma_from(
                    v@,
                    i + 1 as int,
                ) =~= pre.map_values(|p: Vec<char>| p@) + split_comma_from(v@, pos as int));
                pos = i + 1;
            },
            None => {
                proof {
                    lemma_find_at(v@, comma@, pos as int);
                }
                let piece = subvec(v, pos, v.len());
                let ghost pre = parts@;
                parts.push(piece);
                assert(split_comma_from(v@, pos as int) == seq![v@.subrange(
                    pos as int,
                    v@.len() as int,
                )]);
                assert(parts@.map_values(|p: Vec<char>| p@) =~= pre.map_values(
                    |p: Vec<char>| p@,
                ).push(piece@));
                assert(pre.map_values(|p: Vec<char>| p@).push(piece@) =~= pre.map_values(
                    |p: Vec<char>| p@,
                ) + split_comma_from(v@, pos as int));
                return parts;
            },
        }
    }
}

/// The input without leading and trailing whitespace.
pub fn trim_vec(v: &Vec<char>) -> (r: Vec<char>)
    ensures
        r@ == trim_spec(v@),
{
    trim_generic(v, false)
}

/// The input without leading and trailing `"` characters.
pub fn trim_quotes_vec(v: &Vec<char>) -> (r: Vec<char>)
    ensures
        r@ == trim_quotes_spec(v@),
{
    trim_generic(v, true)
}

} // verus!
