//! Plain-text helpers: trimming, pattern matching, substitution and line
//! splitting, each specified over `Seq<char>` and implemented on `&str`.

use vstd::prelude::*;

verus! {

/// A character that is insignificant at the edges of a line.
pub open spec fn is_space(c: char) -> bool {
    c == ' ' || c == '\t' || c == '\r'
}

/// The sequence with its leading space characters removed.
pub open spec fn spec_trim_start(s: Seq<char>) -> Seq<char>
    decreases s.len(),
{
    if s.len() > 0 && is_space(s[0]) {
        spec_trim_start(s.skip(1))
    } else {
        s
    }
}

/// The sequence with its trailing space characters removed.
pub open spec fn spec_trim_end(s: Seq<char>) -> Seq<char>
    decreases s.len(),
{
    if s.len() > 0 && is_space(s[s.len() - 1]) {
        spec_trim_end(s.take(s.len() - 1))
    } else {
        s
    }
}

/// The sequence with leading and trailing space characters removed.
pub open spec fn spec_trim(s: Seq<char>) -> Seq<char> {
    spec_trim_end(spec_trim_start(s))
}

/// The sequence with its trailing `)` characters removed.
pub open spec fn spec_trim_end_paren(s: Seq<char>) -> Seq<char>
    decreases s.len(),
{
    if s.len() > 0 && s[s.len() - 1] == ')' {
        spec_trim_end_paren(s.take(s.len() - 1))
    } else {
        s
    }
}

/// `pat` occurs in `s` starting at position `i`.
pub open spec fn match_at(s: Seq<char>, pat: Seq<char>, i: int) -> bool {
    &&& 0 <= i
    &&& i + pat.len() <= s.len()
    &&& s.subrange(i, i + pat.len()) == pat
}

/// `s` begins with `pat`.
pub open spec fn has_prefix(s: Seq<char>, pat: Seq<char>) -> bool {
    match_at(s, pat, 0)
}

/// `s` ends with `pat`.
pub open spec fn has_suffix(s: Seq<char>, pat: Seq<char>) -> bool {
    pat.len() <= s.len() && match_at(s, pat, s.len() - pat.len())
}

/// `pat` occurs somewhere in `s`.
pub open spec fn contains_pat(s: Seq<char>, pat: Seq<char>) -> bool {
    exists|i: int| match_at(s, pat, i)
}

/// `i` is the leftmost position at which `pat` occurs in `s`.
pub open spec fn is_first_match(s: Seq<char>, pat: Seq<char>, i: int) -> bool {
    match_at(s, pat, i) && forall|j: int| 0 <= j < i ==> !match_at(s, pat, j)
}

/// The leftmost position at which `pat` occurs in `s`; meaningful only
/// when such a position exists.
pub open spec fn first_match_idx(s: Seq<char>, pat: Seq<char>) -> int {
    choose|i: int| is_first_match(s, pat, i)
}

/// `s` with every occurrence of `pat` rewritten, left to right and without
/// rescanning the replacement text, to `repl`.
pub open spec fn spec_replace(s: Seq<char>, pat: Seq<char>, repl: Seq<char>) -> Seq<char>
    decreases s.len(),
{
    if pat.len() == 0 || s.len() < pat.len() {
        s
    } else if s.subrange(0, pat.len() as int) == pat {
        repl + spec_replace(s.skip(pat.len() as int), pat, repl)
    } else {
        seq![s[0]] + spec_replace(s.skip(1), pat, repl)
    }
}

/// The lines of `s`: the segments between `\n` separators, in order.  A
/// text of `n` separators has exactly `n + 1` lines, so the empty text has
/// one empty line and a text ending in `\n` ends with an empty line.
pub open spec fn spec_split_lines(s: Seq<char>) -> Seq<Seq<char>>
    decreases s.len(),
{
    if s.len() == 0 {
        seq![s]
    } else if s[0] == '\n' {
        seq![Seq::<char>::empty()] + spec_split_lines(s.skip(1))
    } else {
        let rest = spec_split_lines(s.skip(1));
        seq![seq![s[0]] + rest[0]] + rest.skip(1)
    }
}

pub proof fn lemma_split_lines_len_pos(s: Seq<char>)
    ensures
        spec_split_lines(s).len() >= 1,
    decreases s.len(),
{
    if s.len() == 0 {
    } else {
        lemma_split_lines_len_pos(s.skip(1));
    }
}

/// Splitting off the first line: if the leftmost separator of `s` stands at
/// `m`, the lines of `s` are `s[..m]` followed by the lines of `s[m+1..]`.
pub proof fn lemma_split_lines_first(s: Seq<char>, m: int)
    requires
        0 <= m < s.len(),
        s[m] == '\n',
        forall|j: int| 0 <= j < m ==> s[j] != '\n',
    ensures
        spec_split_lines(s) == seq![s.take(m)] + spec_split_lines(s.skip(m + 1)),
    decreases m,
{
    lemma_split_lines_len_pos(s.skip(1));
    if m == 0 {
        assert(s.take(0) =~= Seq::<char>::empty());
    } else {
        lemma_split_lines_first(s.skip(1), m - 1);
        let rest = spec_split_lines(s.skip(1));
        assert(rest == seq![s.skip(1).take(m - 1)] + spec_split_lines(s.skip(1).skip(m)));
        assert(s.skip(1).skip(m) =~= s.skip(m + 1));
        assert(rest[0] == s.skip(1).take(m - 1));
        assert(seq![s[0]] + s.skip(1).take(m - 1) =~= s.take(m));
        assert(rest.skip(1) =~= spec_split_lines(s.skip(m + 1)));
        assert(spec_split_lines(s) =~= seq![s.take(m)] + spec_split_lines(s.skip(m + 1)));
    }
}

/// A text without separators is a single line.
pub proof fn lemma_split_lines_whole(s: Seq<char>)
    requires
        forall|j: int| 0 <= j < s.len() ==> s[j] != '\n',
    ensures
        spec_split_lines(s) == seq![s],
    decreases s.len(),
{
    if s.len() == 0 {
    } else {
        lemma_split_lines_whole(s.skip(1));
        let rest = spec_split_lines(s.skip(1));
        assert(seq![s[0]] + rest[0] =~= s);
        assert(rest.skip(1) =~= Seq::<Seq<char>>::empty());
        assert(spec_split_lines(s) =~= seq![s]);
    }
}

pub proof fn lemma_trim_start_skip(s: Seq<char>, a: int)
    requires
        0 <= a <= s.len(),
        forall|j: int| 0 <= j < a ==> is_space(s[j]),
        a < s.len() ==> !is_space(s[a]),
    ensures
        spec_trim_start(s) == s.skip(a),
    decreases a,
{
    if a == 0 {
        assert(s.skip(0) =~= s);
    } else {
        assert(is_space(s[0]));
        assert forall|j: int| 0 <= j < a - 1 implies is_space(s.skip(1)[j]) by {
            assert(s.skip(1)[j] == s[j + 1]);
        }
        lemma_trim_start_skip(s.skip(1), a - 1);
        assert(s.skip(1).skip(a - 1) =~= s.skip(a));
    }
}

pub proof fn lemma_trim_end_take(s: Seq<char>, b: int)
    requires
        0 <= b <= s.len(),
        forall|j: int| b <= j < s.len() ==> is_space(s[j]),
        b > 0 ==> !is_space(s[b - 1]),
    ensures
        spec_trim_end(s) == s.take(b),
    decreases s.len(),
{
    if b == s.len() {
        assert(s.take(b) =~= s);
    } else {
        assert(is_space(s[s.len() - 1]));
        let t = s.take(s.len() - 1);
        assert forall|j: int| b <= j < t.len() implies is_space(t[j]) by {
            assert(t[j] == s[j]);
        }
        lemma_trim_end_take(t, b);
        assert(t.take(b) =~= s.take(b));
    }
}

pub proof fn lemma_trim_end_paren_take(s: Seq<char>, b: int)
    requires
        0 <= b <= s.len(),
        forall|j: int| b <= j < s.len() ==> s[j] == ')',
        b > 0 ==> s[b - 1] != ')',
    ensures
        spec_trim_end_paren(s) == s.take(b),
    decreases s.len(),
{
    if b == s.len() {
        assert(s.take(b) =~= s);
    } else {
        let t = s.take(s.len() - 1);
        assert forall|j: int| b <= j < t.len() implies t[j] == ')' by {
            assert(t[j] == s[j]);
        }
        lemma_trim_end_paren_take(t, b);
        assert(t.take(b) =~= s.take(b));
    }
}

/// Trimming a sequence keeps exactly the span between its first and last
/// non-space characters.
pub proof fn lemma_trim_via_bounds(s: Seq<char>, a: int, b: int)
    requires
        0 <= a <= b <= s.len(),
        forall|j: int| 0 <= j < a ==> is_space(s[j]),
        forall|j: int| b <= j < s.len() ==> is_space(s[j]),
        a < s.len() ==> !is_space(s[a]),
        b > a ==> !is_space(s[b - 1]),
    ensures
        spec_trim(s) == s.subrange(a, b),
{
    lemma_trim_start_skip(s, a);
    let t = s.skip(a);
    assert forall|j: int| b - a <= j < t.len() implies is_space(t[j]) by {
        assert(t[j] == s[a + j]);
    }
    lemma_trim_end_take(t, b - a);
    assert(t.take(b - a) =~= s.subrange(a, b));
}

/// Whether `c` is insignificant at the edges of a line.
pub fn is_space_char(c: char) -> (r: bool)
    ensures
        r == is_space(c),
{
    c == ' ' || c == '\t' || c == '\r'
}

/// The slice of `s` with leading and trailing space characters removed.
pub fn trim_str<'a>(s: &'a str) -> (r: &'a str)
    ensures
        r@ == spec_trim(s@),
{
    let n = s.unicode_len();
    let mut a: usize = 0;
    while a < n && is_space_char(s.get_char(a))
        invariant
            a <= n,
            n == s@.len(),
            forall|j: int| 0 <= j < a ==> is_space(s@[j]),
        decreases n - a,
    {
        a = a + 1;
    }
    let mut b: usize = n;
    while b > a && is_space_char(s.get_char(b - 1))
        invariant
            a <= b <= n,
            n == s@.len(),
            forall|j: int| b <= j < n ==> is_space(s@[j]),
        decreases b,
    {
        b = b - 1;
    }
    proof {
        lemma_trim_via_bounds(s@, a as int, b as int);
    }
    s.substring_char(a, b)
}

/// The slice of `s` with trailing `)` characters removed.
pub fn trim_end_parens<'a>(s: &'a str) -> (r: &'a str)
    ensures
        r@ == spec_trim_end_paren(s@),
{
    let n = s.unicode_len();
    let mut b: usize = n;
    while b > 0 && s.get_char(b - 1) == ')'
        invariant
            b <= n,
            n == s@.len(),
            forall|j: int| b <= j < n ==> s@[j] == ')',
        decreases b,
    {
        b = b - 1;
    }
    proof {
        lemma_trim_end_paren_take(s@, b as int);
    }
    s.substring_char(0, b)
}

/// Whether `pat` occurs in `s` at position `i`.
pub fn match_at_str(s: &str, pat: &str, i: usize) -> (r: bool)
    requires
        i <= s@.len(),
    ensures
        r == match_at(s@, pat@, i as int),
{
    let n = s.unicode_len();
    let pl = pat.unicode_len();
    if pl > n - i {
        return false;
    }
    let mut j: usize = 0;
    while j < pl
        invariant
            j <= pl,
            i + pl <= n,
            n == s@.len(),
            pl == pat@.len(),
            forall|t: int| 0 <= t < j ==> s@[i + t] == pat@[t],
        decreases pl - j,
    {
        if s.get_char(i + j) != pat.get_char(j) {
            proof {
                assert(s@.subrange(i as int, i + pl) != pat@) by {
                    if s@.subrange(i as int, i + pl) == pat@ {
                        assert(s@.subrange(i as int, i + pl)[j as int] == s@[i + j]);
                    }
                }
            }
            return false;
        }
        j = j + 1;
    }
    proof {
        assert(s@.subrange(i as int, i + pl) =~= pat@);
    }
    true
}

/// The leftmost position at which `pat` occurs in `s`, if any.
pub fn find_first(s: &str, pat: &str) -> (r: Option<usize>)
    ensures
        match r {
            Some(i) => is_first_match(s@, pat@, i as int),
            None => !contains_pat(s@, pat@),
        },
{
    let n = s.unicode_len();
    let pl = pat.unicode_len();
    if pl > n {
        proof {
            assert forall|j: int| !match_at(s@, pat@, j) by {}
        }
        return None;
    }
    let mut i: usize = 0;
    while i <= n - pl
        invariant
            pl <= n,
            n == s@.len(),
            pl == pat@.len(),
            i <= n - pl + 1,
            forall|j: int| 0 <= j < i ==> !match_at(s@, pat@, j),
        decreases n - pl - i + 1,
    {
        if match_at_str(s, pat, i) {
            return Some(i);
        }
        proof {
            if pl == 0 {
                assert(s@.subrange(i as int, i as int) =~= pat@);
                assert(match_at(s@, pat@, i as int));
            }
        }
        i = i + 1;
    }
    proof {
        assert forall|j: int| !match_at(s@, pat@, j) by {
            if 0 <= j < i {
            } else if j > n - pl {
            }
        }
    }
    None
}

/// Whether `pat` occurs anywhere in `s`.
pub fn contains_str(s: &str, pat: &str) -> (r: bool)
    ensures
        r == contains_pat(s@, pat@),
{
    match find_first(s, pat) {
        Some(i) => {
            proof {
                assert(match_at(s@, pat@, i as int));
            }
            true
        },
        None => false,
    }
}

/// Whether `s` begins with `pat`.
pub fn has_prefix_str(s: &str, pat: &str) -> (r: bool)
    ensures
        r == has_prefix(s@, pat@),
{
    match_at_str(s, pat, 0)
}

/// Whether `s` ends with `pat`.
pub fn has_suffix_str(s: &str, pat: &str) -> (r: bool)
    ensures
        r == has_suffix(s@, pat@),
{
    let n = s.unicode_len();
    let pl = pat.unicode_len();
    if pl > n {
        return false;
    }
    match_at_str(s, pat, n - pl)
}

/// Whether the two slices hold the same characters.
pub fn str_eq(a: &str, b: &str) -> (r: bool)
    ensures
        r == (a@ == b@),
{
    let n = a.unicode_len();
    if n != b.unicode_len() {
        return false;
    }
    let r = match_at_str(a, b, 0);
    proof {
        if r {
            assert(a@.subrange(0, n as int) =~= a@);
        } else {
            if a@ == b@ {
                assert(a@.subrange(0, n as int) =~= b@);
            }
        }
    }
    r
}

/// Substitution walks past a clean prefix unchanged: if no occurrence of
/// `pat` starts before `k`, the text up to `k` is copied as it stands.
pub proof fn lemma_replace_clean_prefix(s: Seq<char>, pat: Seq<char>, repl: Seq<char>, k: int)
    requires
        pat.len() > 0,
        0 <= k <= s.len(),
        forall|j: int| 0 <= j < k ==> !match_at(s, pat, j),
    ensures
        spec_replace(s, pat, repl) == s.take(k) + spec_replace(s.skip(k), pat, repl),
    decreases k,
{
    if k == 0 {
        assert(s.skip(0) =~= s);
        assert(s.take(0) + spec_replace(s, pat, repl) =~= spec_replace(s, pat, repl));
    } else if s.len() < pat.len() {
        assert(s.skip(k).len() < pat.len());
        assert(s.take(k) + s.skip(k) =~= s);
    } else {
        assert(!match_at(s, pat, 0));
        assert(s.subrange(0, pat.len() as int) != pat);
        assert forall|j: int| 0 <= j < k - 1 implies !match_at(s.skip(1), pat, j) by {
            if match_at(s.skip(1), pat, j) {
                assert(s.skip(1).subrange(j, j + pat.len()) =~= s.subrange(j + 1, j + 1 + pat.len()));
                assert(match_at(s, pat, j + 1));
            }
        }
        lemma_replace_clean_prefix(s.skip(1), pat, repl, k - 1);
        assert(s.skip(1).skip(k - 1) =~= s.skip(k));
        assert(seq![s[0]] + (s.skip(1).take(k - 1) + spec_replace(s.skip(k), pat, repl)) =~= s.take(
            k,
        ) + spec_replace(s.skip(k), pat, repl));
    }
}

/// A text without any occurrence of `pat` is left unchanged by substitution.
pub proof fn lemma_replace_absent(s: Seq<char>, pat: Seq<char>, repl: Seq<char>)
    requires
        pat.len() > 0,
        !contains_pat(s, pat),
    ensures
        spec_replace(s, pat, repl) == s,
{
    lemma_replace_clean_prefix(s, pat, repl, s.len() as int);
    assert(s.skip(s.len() as int).len() == 0);
    assert(s.take(s.len() as int) + s.skip(s.len() as int) =~= s);
}

/// Appends to `out` the text of `s` with every occurrence of `pat`
/// rewritten to `repl`.
pub fn append_replace_all(out: &mut String, s: &str, pat: &str, repl: &str)
    requires
        pat@.len() > 0,
    ensures
        final(out)@ == old(out)@ + spec_replace(s@, pat@, repl@),
{
    let n = s.unicode_len();
    let pl = pat.unicode_len();
    let mut i: usize = 0;
    let mut f: usize = 0;
    let ghost base = out@;
    let ghost mut done = Seq::<char>::empty();
    proof {
        assert(s@.skip(0) =~= s@);
        assert(s@.subrange(0, 0) =~= Seq::<char>::empty());
        assert(done + s@.subrange(0, 0) + spec_replace(s@.skip(0), pat@, repl@) =~= spec_replace(
            s@,
            pat@,
            repl@,
        ));
    }
    while i < n
        invariant
            f <= i <= n,
            n == s@.len(),
            pl == pat@.len(),
            pl > 0,
            out@ == base + done,
            forall|j: int| f <= j < i ==> !match_at(s@, pat@, j),
            spec_replace(s@, pat@, repl@) == done + s@.subrange(f as int, i as int)
                + spec_replace(s@.skip(i as int), pat@, repl@),
        decreases n - i,
    {
        if match_at_str(s, pat, i) {
            let piece = s.substring_char(f, i);
            out.append(piece);
            out.append(repl);
            proof {
                let si = s@.skip(i as int);
                assert(si.subrange(0, pl as int) =~= s@.subrange(i as int, i + pl));
                assert(spec_replace(si, pat@, repl@) == repl@ + spec_replace(
                    si.skip(pl as int),
                    pat@,
                    repl@,
                ));
                assert(si.skip(pl as int) =~= s@.skip(i + pl));
                done = done + s@.subrange(f as int, i as int) + repl@;
                assert(out@ =~= base + done);
                assert(s@.subrange((i + pl) as int, (i + pl) as int) =~= Seq::<char>::empty());
                assert(done + s@.subrange((i + pl) as int, (i + pl) as int) + spec_replace(
                    s@.skip(i + pl),
                    pat@,
                    repl@,
                ) =~= spec_replace(s@, pat@, repl@));
            }
            i = i + pl;
            f = i;
        } else {
            proof {
                let si = s@.skip(i as int);
                if si.len() < pl {
                    assert(spec_replace(si, pat@, repl@) == si);
                    assert(s@.skip(i + 1).len() < pl);
                    assert(spec_replace(s@.skip(i + 1), pat@, repl@) == s@.skip(i + 1));
                    assert(done + s@.subrange(f as int, i + 1) + s@.skip(i + 1) =~= done
                        + s@.subrange(f as int, i as int) + si);
                } else {
                    assert(si.subrange(0, pl as int) =~= s@.subrange(i as int, i + pl));
                    assert(si.subrange(0, pl as int) != pat@);
                    assert(spec_replace(si, pat@, repl@) == seq![si[0]] + spec_replace(
                        si.skip(1),
                        pat@,
                        repl@,
                    ));
                    assert(si.skip(1) =~= s@.skip(i + 1));
                    assert(done + s@.subrange(f as int, i + 1) + spec_replace(
                        s@.skip(i + 1),
                        pat@,
                        repl@,
                    ) =~= done + s@.subrange(f as int, i as int) + spec_replace(si, pat@, repl@));
                }
            }
            i = i + 1;
        }
    }
    let piece = s.substring_char(f, n);
    out.append(piece);
    proof {
        assert(s@.skip(n as int).len() == 0);
        assert(spec_replace(s@.skip(n as int), pat@, repl@) == s@.skip(n as int));
        assert(out@ =~= old(out)@ + spec_replace(s@, pat@, repl@));
    }
}

/// The character bounds of each line of `s`, in order: line `k` of `s` is
/// the span `r[k].0 .. r[k].1`.
pub fn split_line_bounds(s: &str) -> (r: Vec<(usize, usize)>)
    ensures
        r@.len() == spec_split_lines(s@).len(),
        forall|k: int|
            0 <= k < r@.len() ==> (#[trigger] r@[k]).0 <= r@[k].1 <= s@.len() && s@.subrange(
                r@[k].0 as int,
                r@[k].1 as int,
            ) == spec_split_lines(s@)[k],
{
    let ghost all = spec_split_lines(s@);
    let n = s.unicode_len();
    let mut r: Vec<(usize, usize)> = Vec::new();
    let mut p: usize = 0;
    let mut finished = false;
    proof {
        assert(s@.skip(0) =~= s@);
    }
    while !finished
        invariant
            p <= n,
            n == s@.len(),
            all == spec_split_lines(s@),
            forall|k: int|
                0 <= k < r@.len() ==> (#[trigger] r@[k]).0 <= r@[k].1 <= s@.len() && s@.subrange(
                    r@[k].0 as int,
                    r@[k].1 as int,
                ) == all[k],
            if finished {
                r@.len() == all.len()
            } else {
                r@.len() < all.len() && all.skip(r@.len() as int) == spec_split_lines(
                    s@.skip(p as int),
                )
            },
        decreases n - p + (if finished { 0int } else { 1int }),
    {
        let mut q: usize = p;
        while q < n && s.get_char(q) != '\n'
            invariant
                p <= q <= n,
                n == s@.len(),
                forall|j: int| p <= j < q ==> s@[j] != '\n',
            decreases n - q,
        {
            q = q + 1;
        }
        proof {
            let sp = s@.skip(p as int);
            let k = r@.len() as int;
            if q < n {
                assert(sp[(q - p) as int] == '\n');
                assert forall|j: int| 0 <= j < q - p implies sp[j] != '\n' by {
                    assert(sp[j] == s@[p + j]);
                }
                lemma_split_lines_first(sp, (q - p) as int);
                assert(sp.take((q - p) as int) =~= s@.subrange(p as int, q as int));
                assert(sp.skip((q - p) as int + 1) =~= s@.skip((q + 1) as int));
                assert(all.skip(k)[0] == s@.subrange(p as int, q as int));
                assert(all[k] == s@.subrange(p as int, q as int));
                lemma_split_lines_len_pos(s@.skip((q + 1) as int));
            } else {
                assert forall|j: int| 0 <= j < sp.len() implies sp[j] != '\n' by {
                    assert(sp[j] == s@[p + j]);
                }
                lemma_split_lines_whole(sp);
                assert(sp =~= s@.subrange(p as int, n as int));
                assert(all.skip(k)[0] == s@.subrange(p as int, q as int));
                assert(all[k] == s@.subrange(p as int, q as int));
                assert(all.skip(k).len() == 1);
            }
        }
        r.push((p, q));
        if q < n {
            proof {
                let k = (r@.len() - 1) as int;
                let rest = spec_split_lines(s@.skip((q + 1) as int));
                lemma_split_lines_len_pos(s@.skip((q + 1) as int));
                assert(all.skip(k) == seq![all[k]] + rest);
                assert((seq![all[k]] + rest).skip(1) =~= rest);
                assert(all.skip(k).skip(1) =~= all.skip(k + 1));
                assert(all.skip(k + 1) == rest);
            }
            p = q + 1;
        } else {
            finished = true;
        }
    }
    r
}

/// The first match is the only first match.
pub proof fn lemma_first_match_unique(s: Seq<char>, pat: Seq<char>, i: int)
    requires
        is_first_match(s, pat, i),
    ensures
        first_match_idx(s, pat) == i,
{
    let j = first_match_idx(s, pat);
    assert(is_first_match(s, pat, j)) by {
        assert(exists|k: int| is_first_match(s, pat, k));
    }
    if j < i {
        assert(!match_at(s, pat, j));
    } else if i < j {
        assert(!match_at(s, pat, i));
    }
}

} // verus!
