//! Character-level string utilities: trimming, substring search, splitting
//! and joining, stated over `Seq<char>` views.

use vstd::prelude::*;

verus! {

/// The whitespace characters the manifest format strips at line ends.
pub open spec fn is_ws(c: char) -> bool {
    c == ' ' || c == '\t' || c == '\r'
}

/// `s` with leading whitespace removed.
pub open spec fn trim_start_spec(s: Seq<char>) -> Seq<char>
    decreases s.len(),
{
    if s.len() > 0 && is_ws(s[0]) {
        trim_start_spec(s.drop_first())
    } else {
        s
    }
}

/// `s` with trailing whitespace removed.
pub open spec fn trim_end_spec(s: Seq<char>) -> Seq<char>
    decreases s.len(),
{
    if s.len() > 0 && is_ws(s.last()) {
        trim_end_spec(s.drop_last())
    } else {
        s
    }
}

/// `s` with whitespace removed from both ends.
pub open spec fn trim_spec(s: Seq<char>) -> Seq<char> {
    trim_end_spec(trim_start_spec(s))
}

/// The pattern `p` occurs in `t` starting at position `i`.
pub open spec fn is_match(t: Seq<char>, p: Seq<char>, i: int) -> bool {
    0 <= i && i + p.len() <= t.len() && t.subrange(i, i + p.len()) == p
}

/// Position of the first occurrence of `p` in `t` at or after `i`.
pub open spec fn find_from(t: Seq<char>, p: Seq<char>, i: int) -> Option<int>
    decreases t.len() - i,
{
    if i < 0 || i + p.len() > t.len() {
        None
    } else if is_match(t, p, i) {
        Some(i)
    } else if i < t.len() {
        find_from(t, p, i + 1)
    } else {
        None
    }
}

/// Position of the first occurrence of `p` in `t`.
pub open spec fn find_spec(t: Seq<char>, p: Seq<char>) -> Option<int> {
    find_from(t, p, 0)
}

/// `t` contains an occurrence of `p`.
pub open spec fn contains_spec(t: Seq<char>, p: Seq<char>) -> bool {
    find_spec(t, p) is Some
}

/// Position of the first occurrence of the character `c` in `t` at or after `i`.
pub open spec fn find_char_from(t: Seq<char>, c: char, i: int) -> Option<int>
    decreases t.len() - i,
{
    if i < 0 || i >= t.len() {
        None
    } else if t[i] == c {
        Some(i)
    } else {
        find_char_from(t, c, i + 1)
    }
}

/// Position of the last occurrence of the character `c` in `t`.
pub open spec fn rfind_char_spec(t: Seq<char>, c: char) -> Option<int>
    decreases t.len(),
{
    if t.len() == 0 {
        None
    } else if t.last() == c {
        Some(t.len() - 1)
    } else {
        rfind_char_spec(t.drop_last(), c)
    }
}

/// `t` ends with the character `c`.
pub open spec fn ends_with_char(t: Seq<char>, c: char) -> bool {
    t.len() > 0 && t.last() == c
}

/// `s` nowhere holds the character `c`.
pub open spec fn no_char(s: Seq<char>, c: char) -> bool {
    forall|i: int| 0 <= i < s.len() ==> s[i] != c
}

/// What `find_from` returns is the first match at or after `i`, if any.
pub proof fn lemma_find_from_props(t: Seq<char>, p: Seq<char>, i: int)
    requires
        0 <= i,
    ensures
        match find_from(t, p, i) {
            Some(k) => i <= k && is_match(t, p, k) && forall|j: int|
                i <= j < k ==> !is_match(t, p, j),
            None => forall|j: int| j >= i ==> !is_match(t, p, j),
        },
    decreases t.len() - i,
{
    if i + p.len() > t.len() {
    } else if is_match(t, p, i) {
    } else if i < t.len() {
        lemma_find_from_props(t, p, i + 1);
    } else {
        assert(forall|j: int| j >= i ==> !is_match(t, p, j));
    }
}

/// What `find_char_from` returns is the first occurrence at or after `i`, if any.
pub proof fn lemma_find_char_from_props(t: Seq<char>, c: char, i: int)
    requires
        0 <= i,
    ensures
        match find_char_from(t, c, i) {
            Some(k) => i <= k < t.len() && t[k] == c && forall|j: int|
                i <= j < k ==> t[j] != c,
            None => forall|j: int| i <= j < t.len() ==> t[j] != c,
        },
    decreases t.len() - i,
{
    if i >= t.len() {
    } else if t[i] == c {
    } else {
        lemma_find_char_from_props(t, c, i + 1);
    }
}

/// What `rfind_char_spec` returns is the last occurrence, if any.
pub proof fn lemma_rfind_char_props(t: Seq<char>, c: char)
    ensures
        match rfind_char_spec(t, c) {
            Some(k) => 0 <= k < t.len() && t[k] == c && forall|j: int|
                k < j < t.len() ==> t[j] != c,
            None => forall|j: int| 0 <= j < t.len() ==> t[j] != c,
        },
    decreases t.len(),
{
    if t.len() > 0 && t.last() != c {
        lemma_rfind_char_props(t.drop_last(), c);
        assert(forall|j: int| 0 <= j < t.len() - 1 ==> t.drop_last()[j] == t[j]);
    }
}

proof fn lemma_trim_start_skip(s: Seq<char>, i: int)
    requires
        0 <= i <= s.len(),
        forall|j: int| 0 <= j < i ==> is_ws(s[j]),
    ensures
        trim_start_spec(s) == trim_start_spec(s.skip(i)),
    decreases i,
{
    if i > 0 {
        assert(is_ws(s[0]));
        assert(s.drop_first() =~= s.skip(1));
        lemma_trim_start_skip(s.skip(1), i - 1);
        assert(s.skip(1).skip(i - 1) =~= s.skip(i));
    } else {
        assert(s.skip(0) =~= s);
    }
}

proof fn lemma_trim_end_take(s: Seq<char>, i: int)
    requires
        0 <= i <= s.len(),
        forall|j: int| i <= j < s.len() ==> is_ws(s[j]),
    ensures
        trim_end_spec(s) == trim_end_spec(s.take(i)),
    decreases s.len() - i,
{
    if i < s.len() {
        assert(is_ws(s.last()));
        assert(s.drop_last() =~= s.take(s.len() - 1));
        lemma_trim_end_take(s.take(s.len() - 1), i);
        assert(s.take(s.len() - 1).take(i) =~= s.take(i));
    } else {
        assert(s.take(s.len() as int) =~= s);
    }
}

/// Whether `p` occurs in `s` at position `i`, by direct comparison.
pub fn match_at(s: &str, p: &str, i: usize) -> (r: bool)
    requires
        i + p@.len() <= s@.len(),
    ensures
        r == is_match(s@, p@, i as int),
{
    let slen = s.unicode_len();
    let plen = p.unicode_len();
    let mut j: usize = 0;
    while j < plen
        invariant
            slen == s@.len(),
            plen == p@.len(),
            i + plen <= slen,
            0 <= j <= plen,
            forall|k: int| 0 <= k < j ==> s@[i + k] == p@[k],
        decreases plen - j,
    {
        if s.get_char(i + j) != p.get_char(j) {
            assert(s@.subrange(i as int, i + p@.len()) != p@) by {
                assert(s@.subrange(i as int, i + p@.len())[j as int] != p@[j as int]);
            }
            return false;
        }
        j = j + 1;
    }
    assert(s@.subrange(i as int, i + p@.len()) =~= p@);
    true
}

/// Position of the first occurrence of `p` in `s`, if any.
pub fn find_str(s: &str, p: &str) -> (r: Option<usize>)
    ensures
        match r {
            Some(k) => find_spec(s@, p@) == Some(k as int),
            None => find_spec(s@, p@) is None,
        },
{
    let slen = s.unicode_len();
    let plen = p.unicode_len();
    if plen > slen {
        return None;
    }
    if plen == 0 {
        assert(s@.subrange(0, 0) =~= p@);
        return Some(0);
    }
    let mut i: usize = 0;
    while i <= slen - plen
        invariant
            slen == s@.len(),
            plen == p@.len(),
            0 < plen <= slen,
            0 <= i <= slen - plen + 1,
            find_from(s@, p@, 0) == find_from(s@, p@, i as int),
        decreases slen - i,
    {
        if match_at(s, p, i) {
            return Some(i);
        }
        i = i + 1;
    }
    None
}

/// Position of the first occurrence of the character `c` in `s` at or after `start`.
pub fn find_char(s: &str, c: char, start: usize) -> (r: Option<usize>)
    ensures
        match r {
            Some(k) => find_char_from(s@, c, start as int) == Some(k as int),
            None => find_char_from(s@, c, start as int) is None,
        },
{
    let slen = s.unicode_len();
    let mut i: usize = start;
    if i > slen {
        return None;
    }
    while i < slen
        invariant
            slen == s@.len(),
            start <= i <= slen,
            find_char_from(s@, c, start as int) == find_char_from(s@, c, i as int),
        decreases slen - i,
    {
        if s.get_char(i) == c {
            return Some(i);
        }
        i = i + 1;
    }
    None
}

/// Position of the last occurrence of the character `c` in `s`, if any.
pub fn rfind_char(s: &str, c: char) -> (r: Option<usize>)
    ensures
        match r {
            Some(k) => rfind_char_spec(s@, c) == Some(k as int),
            None => rfind_char_spec(s@, c) is None,
        },
{
    let slen = s.unicode_len();
    let mut i: usize = slen;
    assert(s@.take(slen as int) =~= s@);
    while i > 0
        invariant
            slen == s@.len(),
            0 <= i <= slen,
            rfind_char_spec(s@, c) == rfind_char_spec(s@.take(i as int), c),
        decreases i,
    {
        proof {
            assert(s@.take(i as int).drop_last() =~= s@.take(i - 1));
            assert(s@.take(i as int).last() == s@[i - 1]);
        }
        if s.get_char(i - 1) == c {
            return Some(i - 1);
        }
        i = i - 1;
    }
    assert(s@.take(0) =~= Seq::<char>::empty());
    None
}

/// Whether `s` contains an occurrence of `p`.
pub fn contains_str(s: &str, p: &str) -> (r: bool)
    ensures
        r == contains_spec(s@, p@),
{
    match find_str(s, p) {
        Some(_) => true,
        None => false,
    }
}

/// Whether `s` starts with `p`.
pub fn starts_with(s: &str, p: &str) -> (r: bool)
    ensures
        r == is_match(s@, p@, 0),
{
    if p.unicode_len() > s.unicode_len() {
        return false;
    }
    match_at(s, p, 0)
}

/// Whether `s` ends with the character `c`.
pub fn ends_with(s: &str, c: char) -> (r: bool)
    ensures
        r == ends_with_char(s@, c),
{
    let slen = s.unicode_len();
    if slen == 0 {
        false
    } else {
        s.get_char(slen - 1) == c
    }
}

/// The substring of `s` with both ends trimmed of whitespace.
pub fn trim(s: &str) -> (r: &str)
    ensures
        r@ == trim_spec(s@),
{
    let slen = s.unicode_len();
    let mut start: usize = 0;
    while start < slen && is_ws_exec(s.get_char(start))
        invariant
            slen == s@.len(),
            0 <= start <= slen,
            forall|j: int| 0 <= j < start ==> is_ws(s@[j]),
        decreases slen - start,
    {
        start = start + 1;
    }
    let mut end: usize = slen;
    while end > start && is_ws_exec(s.get_char(end - 1))
        invariant
            slen == s@.len(),
            start <= end <= slen,
            forall|j: int| end <= j < slen ==> is_ws(s@[j]),
        decreases end,
    {
        end = end - 1;
    }
    proof {
        lemma_trim_start_skip(s@, start as int);
        let u = s@.skip(start as int);
        assert(trim_start_spec(u) == u) by {
            if u.len() > 0 {
                assert(u[0] == s@[start as int]);
            }
        }
        lemma_trim_end_take(u, end - start);
        let v = u.take(end - start);
        assert(trim_end_spec(v) == v) by {
            if v.len() > 0 {
                assert(v.last() == s@[end - 1]);
            }
        }
        assert(s@.skip(start as int).take(end - start) =~= s@.subrange(
            start as int,
            end as int,
        ));
    }
    s.substring_char(start, end)
}

/// The substring of `s` with the end trimmed of whitespace.
pub fn trim_end(s: &str) -> (r: &str)
    ensures
        r@ == trim_end_spec(s@),
{
    let slen = s.unicode_len();
    let mut end: usize = slen;
    while end > 0 && is_ws_exec(s.get_char(end - 1))
        invariant
            slen == s@.len(),
            0 <= end <= slen,
            forall|j: int| end <= j < slen ==> is_ws(s@[j]),
        decreases end,
    {
        end = end - 1;
    }
    proof {
        lemma_trim_end_take(s@, end as int);
        let v = s@.take(end as int);
        assert(trim_end_spec(v) == v) by {
            if v.len() > 0 {
                assert(v.last() == s@[end - 1]);
            }
        }
        assert(s@.take(end as int) =~= s@.subrange(0, end as int));
    }
    s.substring_char(0, end)
}

/// Executable check for the whitespace set.
pub fn is_ws_exec(c: char) -> (r: bool)
    ensures
        r == is_ws(c),
{
    c == ' ' || c == '\t' || c == '\r'
}

/// `t` split at every occurrence of `c`; `n` separators yield `n + 1` pieces.
pub open spec fn split_char_spec(t: Seq<char>, c: char) -> Seq<Seq<char>>
    decreases t.len(),
{
    match find_char_from(t, c, 0) {
        Some(i) => if 0 <= i < t.len() {
            seq![t.take(i)] + split_char_spec(t.skip(i + 1), c)
        } else {
            seq![t]
        },
        None => seq![t],
    }
}

/// `t` split at every occurrence of the non-empty pattern `p`, left to right.
pub open spec fn split_str_spec(t: Seq<char>, p: Seq<char>) -> Seq<Seq<char>>
    decreases t.len(),
{
    match find_from(t, p, 0) {
        Some(i) => if p.len() > 0 && 0 <= i && i + p.len() <= t.len() {
            seq![t.take(i)] + split_str_spec(t.skip(i + p.len()), p)
        } else {
            seq![t]
        },
        None => seq![t],
    }
}

/// The lines of `t`, separated by newline characters; a final trailing
/// newline does not open an extra empty line.
pub open spec fn lines_spec(t: Seq<char>) -> Seq<Seq<char>> {
    if t.len() == 0 {
        Seq::empty()
    } else if t.last() == '\n' {
        split_char_spec(t.take(t.len() - 1), '\n')
    } else {
        split_char_spec(t, '\n')
    }
}

/// The pieces of `parts` joined with the separator `sep` between them.
pub open spec fn join_with(parts: Seq<Seq<char>>, sep: Seq<char>) -> Seq<char>
    decreases parts.len(),
{
    if parts.len() == 0 {
        Seq::empty()
    } else if parts.len() == 1 {
        parts[0]
    } else {
        parts[0] + sep + join_with(parts.drop_first(), sep)
    }
}

/// Searching from `off` in `t` is searching from the start of `t.skip(off)`.
pub proof fn lemma_find_char_shift(t: Seq<char>, c: char, off: int)
    requires
        0 <= off <= t.len(),
    ensures
        find_char_from(t, c, off) == match find_char_from(t.skip(off), c, 0) {
            Some(k) => Some(k + off),
            None => None::<int>,
        },
    decreases t.len() - off,
{
    lemma_find_char_from_props(t, c, off);
    lemma_find_char_from_props(t.skip(off), c, 0);
    let u = t.skip(off);
    assert(forall|j: int| 0 <= j < u.len() ==> u[j] == t[j + off]);
    match find_char_from(t, c, off) {
        Some(k) => {
            assert(u[k - off] == c);
            match find_char_from(u, c, 0) {
                Some(m) => {
                    assert(t[m + off] == c);
                    assert(!(m + off < k));
                    assert(!(m < k - off));
                    assert(!(k - off < m));
                },
                None => {
                    assert(u[k - off] != c);
                },
            }
        },
        None => {
            match find_char_from(u, c, 0) {
                Some(m) => {
                    assert(t[m + off] == c);
                },
                None => {},
            }
        },
    }
}

/// Searching a pattern from `off` in `t` is searching from the start of `t.skip(off)`.
pub proof fn lemma_find_shift(t: Seq<char>, p: Seq<char>, off: int)
    requires
        0 <= off <= t.len(),
    ensures
        find_from(t, p, off) == match find_from(t.skip(off), p, 0) {
            Some(k) => Some(k + off),
            None => None::<int>,
        },
{
    lemma_find_from_props(t, p, off);
    lemma_find_from_props(t.skip(off), p, 0);
    let u = t.skip(off);
    match find_from(t, p, off) {
        Some(k) => {
            assert(t.subrange(k, k + p.len()) =~= u.subrange(k - off, k - off + p.len()));
            assert(is_match(u, p, k - off));
            match find_from(u, p, 0) {
                Some(m) => {
                    assert(u.subrange(m, m + p.len()) =~= t.subrange(
                        m + off,
                        m + off + p.len(),
                    ));
                    assert(is_match(t, p, m + off));
                    assert(!(m + off < k));
                    assert(!(k - off < m));
                },
                None => {},
            }
        },
        None => {
            match find_from(u, p, 0) {
                Some(m) => {
                    assert(u.subrange(m, m + p.len()) =~= t.subrange(
                        m + off,
                        m + off + p.len(),
                    ));
                    assert(is_match(t, p, m + off));
                },
                None => {},
            }
        },
    }
}

/// `s` split at every occurrence of the character `c`.
pub fn split_on_char(s: &str, c: char) -> (r: Vec<String>)
    ensures
        r.deep_view() == split_char_spec(s@, c),
{
    let slen = s.unicode_len();
    let mut parts: Vec<String> = Vec::new();
    let mut pos: usize = 0;
    proof {
        assert(parts.deep_view() =~= Seq::<Seq<char>>::empty());
        assert(s@.skip(0) =~= s@);
        assert(parts.deep_view() + split_char_spec(s@, c) =~= split_char_spec(s@, c));
    }
    loop
        invariant
            slen == s@.len(),
            0 <= pos <= slen,
            split_char_spec(s@, c) == parts.deep_view() + split_char_spec(
                s@.skip(pos as int),
                c,
            ),
        decreases slen - pos,
    {
        let ghost u = s@.skip(pos as int);
        proof {
            lemma_find_char_shift(s@, c, pos as int);
            lemma_find_char_from_props(s@, c, pos as int);
        }
        match find_char(s, c, pos) {
            Some(i) => {
                proof {
                    assert(find_char_from(u, c, 0) == Some(i - pos));
                    assert(u.take(i - pos) =~= s@.subrange(pos as int, i as int));
                    assert(u.skip(i - pos + 1) =~= s@.skip(i + 1));
                }
                let ghost old_dv = parts.deep_view();
                let piece = s.substring_char(pos, i).to_owned();
                parts.push(piece);
                proof {
                    assert(parts.deep_view() =~= old_dv.push(piece@));
                    assert(split_char_spec(u, c) == seq![u.take(i - pos)]
                        + split_char_spec(s@.skip(i + 1), c));
                    assert(old_dv + split_char_spec(u, c) =~= parts.deep_view()
                        + split_char_spec(s@.skip(i + 1), c));
                }
                pos = i + 1;
            },
            None => {
                let ghost old_dv = parts.deep_view();
                let piece = s.substring_char(pos, slen).to_owned();
                parts.push(piece);
                proof {
                    assert(piece@ =~= u);
                    assert(parts.deep_view() =~= old_dv.push(u));
                    assert(split_char_spec(u, c) == seq![u]);
                    assert(old_dv + split_char_spec(u, c) =~= parts.deep_view());
                }
                return parts;
            },
        }
    }
}

/// The lines of `s`.
pub fn split_lines(s: &str) -> (r: Vec<String>)
    ensures
        r.deep_view() == lines_spec(s@),
{
    let slen = s.unicode_len();
    if slen == 0 {
        let r: Vec<String> = Vec::new();
        assert(r.deep_view() =~= lines_spec(s@));
        return r;
    }
    if ends_with(s, '\n') {
        let head = s.substring_char(0, slen - 1);
        assert(head@ =~= s@.take(slen - 1));
        split_on_char(head, '\n')
    } else {
        split_on_char(s, '\n')
    }
}

/// `s` split at every occurrence of the non-empty pattern `p`.
pub fn split_pattern(s: &str, p: &str) -> (r: Vec<String>)
    requires
        p@.len() > 0,
    ensures
        r.deep_view() == split_str_spec(s@, p@),
{
    let slen = s.unicode_len();
    let mut parts: Vec<String> = Vec::new();
    let mut pos: usize = 0;
    proof {
        assert(parts.deep_view() =~= Seq::<Seq<char>>::empty());
        assert(s@.skip(0) =~= s@);
        assert(parts.deep_view() + split_str_spec(s@, p@) =~= split_str_spec(s@, p@));
    }
    loop
        invariant
            slen == s@.len(),
            p@.len() > 0,
            0 <= pos <= slen,
            split_str_spec(s@, p@) == parts.deep_view() + split_str_spec(
                s@.skip(pos as int),
                p@,
            ),
        decreases slen - pos,
    {
        let ghost u = s@.skip(pos as int);
        let tail = s.substring_char(pos, slen);
        assert(tail@ =~= u);
        proof {
            lemma_find_from_props(u, p@, 0);
        }
        match find_str(tail, p) {
            Some(rel) => {
                let i = pos + rel;
                proof {
                    assert(u.take(rel as int) =~= s@.subrange(pos as int, i as int));
                    assert(u.skip(rel + p@.len()) =~= s@.skip(i + p@.len()));
                }
                let ghost old_dv = parts.deep_view();
                let piece = s.substring_char(pos, i).to_owned();
                parts.push(piece);
                proof {
                    assert(parts.deep_view() =~= old_dv.push(piece@));
                    assert(split_str_spec(u, p@) == seq![u.take(rel as int)]
                        + split_str_spec(s@.skip(i + p@.len()), p@));
                    assert(old_dv + split_str_spec(u, p@) =~= parts.deep_view()
                        + split_str_spec(s@.skip(i + p@.len()), p@));
                }
                pos = i + p.unicode_len();
            },
            None => {
                let ghost old_dv = parts.deep_view();
                let piece = s.substring_char(pos, slen).to_owned();
                parts.push(piece);
                proof {
                    assert(piece@ =~= u);
                    assert(parts.deep_view() =~= old_dv.push(u));
                    assert(split_str_spec(u, p@) == seq![u]);
                    assert(old_dv + split_str_spec(u, p@) =~= parts.deep_view());
                }
                return parts;
            },
        }
    }
}

/// A match at `k` before which no match exists is what `find_from` finds.
pub proof fn lemma_find_from_converse(t: Seq<char>, p: Seq<char>, k: int)
    requires
        is_match(t, p, k),
        forall|j: int| 0 <= j < k ==> !is_match(t, p, j),
    ensures
        find_spec(t, p) == Some(k),
{
    lemma_find_from_props(t, p, 0);
    match find_spec(t, p) {
        Some(m) => {
            assert(!(m < k));
            assert(!(k < m));
        },
        None => {
            assert(!is_match(t, p, k));
        },
    }
}

/// An occurrence of `c` at `k` with none before it (from `i`) is what
/// `find_char_from` finds.
pub proof fn lemma_find_char_converse(t: Seq<char>, c: char, i: int, k: int)
    requires
        0 <= i <= k < t.len(),
        t[k] == c,
        forall|j: int| i <= j < k ==> t[j] != c,
    ensures
        find_char_from(t, c, i) == Some(k),
{
    lemma_find_char_from_props(t, c, i);
    match find_char_from(t, c, i) {
        Some(m) => {
            assert(!(m < k));
            assert(!(k < m));
        },
        None => {
            assert(t[k] != c);
        },
    }
}

/// An occurrence of `c` at `k` with none after it is what `rfind_char_spec`
/// finds.
pub proof fn lemma_rfind_char_converse(t: Seq<char>, c: char, k: int)
    requires
        0 <= k < t.len(),
        t[k] == c,
        forall|j: int| k < j < t.len() ==> t[j] != c,
    ensures
        rfind_char_spec(t, c) == Some(k),
{
    lemma_rfind_char_props(t, c);
    match rfind_char_spec(t, c) {
        Some(m) => {
            assert(!(m < k));
            assert(!(k < m));
        },
        None => {
            assert(t[k] != c);
        },
    }
}

/// A witnessed match makes the pattern contained.
pub proof fn lemma_contains_at(t: Seq<char>, p: Seq<char>, i: int)
    requires
        is_match(t, p, i),
    ensures
        contains_spec(t, p),
{
    lemma_find_from_props(t, p, 0);
    if find_spec(t, p) is None {
        assert(!is_match(t, p, i));
    }
}

/// What a part of `t` does not contain, `t`'s parts do not contain either.
pub proof fn lemma_no_contains_subrange(t: Seq<char>, p: Seq<char>, lo: int, hi: int)
    requires
        !contains_spec(t, p),
        0 <= lo <= hi <= t.len(),
    ensures
        !contains_spec(t.subrange(lo, hi), p),
{
    let u = t.subrange(lo, hi);
    lemma_find_from_props(t, p, 0);
    match find_spec(u, p) {
        Some(i) => {
            lemma_find_from_props(u, p, 0);
            assert(u.subrange(i, i + p.len()) =~= t.subrange(lo + i, lo + i + p.len()));
            assert(is_match(t, p, lo + i));
        },
        None => {},
    }
}

/// A text without the separator splits into itself alone.
pub proof fn lemma_split_no_sep(x: Seq<char>, c: char)
    requires
        forall|i: int| 0 <= i < x.len() ==> x[i] != c,
    ensures
        split_char_spec(x, c) == seq![x],
{
    lemma_find_char_from_props(x, c, 0);
    match find_char_from(x, c, 0) {
        Some(i) => {
            assert(x[i] != c);
        },
        None => {},
    }
}

/// Splitting distributes over concatenation at a separator.
pub proof fn lemma_split_concat(a: Seq<char>, b: Seq<char>, c: char)
    ensures
        split_char_spec(a + seq![c] + b, c) == split_char_spec(a, c) + split_char_spec(b, c),
    decreases a.len(),
{
    let w = a + seq![c] + b;
    lemma_find_char_from_props(a, c, 0);
    match find_char_from(a, c, 0) {
        Some(i) => {
            assert(w[i] == c);
            assert(forall|j: int| 0 <= j < i ==> w[j] != c);
            lemma_find_char_converse(w, c, 0, i);
            assert(w.take(i) =~= a.take(i));
            assert(w.skip(i + 1) =~= a.skip(i + 1) + seq![c] + b);
            lemma_split_concat(a.skip(i + 1), b, c);
            assert(split_char_spec(w, c) == seq![a.take(i)] + (split_char_spec(
                a.skip(i + 1),
                c,
            ) + split_char_spec(b, c)));
            assert(split_char_spec(a, c) == seq![a.take(i)] + split_char_spec(
                a.skip(i + 1),
                c,
            ));
            assert(seq![a.take(i)] + (split_char_spec(a.skip(i + 1), c) + split_char_spec(
                b,
                c,
            )) =~= (seq![a.take(i)] + split_char_spec(a.skip(i + 1), c)) + split_char_spec(
                b,
                c,
            ));
        },
        None => {
            assert(w[a.len() as int] == c);
            assert(forall|j: int| 0 <= j < a.len() ==> w[j] == a[j] && w[j] != c);
            lemma_find_char_converse(w, c, 0, a.len() as int);
            assert(w.take(a.len() as int) =~= a);
            assert(w.skip(a.len() as int + 1) =~= b);
            assert(split_char_spec(w, c) == seq![a] + split_char_spec(b, c));
            lemma_split_no_sep(a, c);
        },
    }
}

/// A split is never empty.
pub proof fn lemma_split_len(x: Seq<char>, c: char)
    ensures
        split_char_spec(x, c).len() >= 1,
{
}

/// Joining a split with its separator restores the text.
pub proof fn lemma_join_split(x: Seq<char>, c: char)
    ensures
        join_with(split_char_spec(x, c), seq![c]) == x,
    decreases x.len(),
{
    lemma_find_char_from_props(x, c, 0);
    match find_char_from(x, c, 0) {
        Some(i) => {
            let parts = seq![x.take(i)] + split_char_spec(x.skip(i + 1), c);
            assert(split_char_spec(x, c) == parts);
            lemma_split_len(x.skip(i + 1), c);
            assert(parts.len() >= 2);
            assert(parts.drop_first() =~= split_char_spec(x.skip(i + 1), c));
            lemma_join_split(x.skip(i + 1), c);
            assert(join_with(parts, seq![c]) == x.take(i) + seq![c] + x.skip(i + 1));
            assert(x.take(i) + seq![c] + x.skip(i + 1) =~= x);
        },
        None => {
            assert(split_char_spec(x, c) == seq![x]);
        },
    }
}

/// The lines of a text, joined by newlines and closed by the text's own
/// trailing-newline convention, restore the text.
pub proof fn lemma_join_lines(t: Seq<char>)
    ensures
        join_with(lines_spec(t), seq!['\n']) + (if ends_with_char(t, '\n') {
            seq!['\n']
        } else {
            Seq::<char>::empty()
        }) == t,
{
    if t.len() == 0 {
        assert(join_with(lines_spec(t), seq!['\n']) + Seq::<char>::empty() =~= t);
    } else if t.last() == '\n' {
        lemma_join_split(t.take(t.len() - 1), '\n');
        assert(t.take(t.len() - 1) + seq!['\n'] =~= t);
    } else {
        lemma_join_split(t, '\n');
        assert(t + Seq::<char>::empty() =~= t);
    }
}

/// Whether two strings hold the same characters.
pub fn str_eq(a: &str, b: &str) -> (r: bool)
    ensures
        r == (a@ == b@),
{
    let alen = a.unicode_len();
    let blen = b.unicode_len();
    if alen != blen {
        return false;
    }
    let mut i: usize = 0;
    while i < alen
        invariant
            alen == a@.len(),
            alen == b@.len(),
            0 <= i <= alen,
            forall|j: int| 0 <= j < i ==> a@[j] == b@[j],
        decreases alen - i,
    {
        if a.get_char(i) != b.get_char(i) {
            assert(a@ != b@) by {
                assert(a@[i as int] != b@[i as int]);
            }
            return false;
        }
        i = i + 1;
    }
    assert(a@ =~= b@);
    true
}

/// `join_with` over a sequence extended by one piece.
pub proof fn lemma_join_push(parts: Seq<Seq<char>>, sep: Seq<char>, x: Seq<char>)
    ensures
        join_with(parts.push(x), sep) == if parts.len() == 0 {
            x
        } else {
            join_with(parts, sep) + sep + x
        },
    decreases parts.len(),
{
    if parts.len() == 0 {
        assert(parts.push(x)[0] == x);
        assert(parts.push(x).len() == 1);
    } else {
        assert(parts.push(x).drop_first() =~= parts.drop_first().push(x));
        lemma_join_push(parts.drop_first(), sep, x);
        if parts.len() == 1 {
            assert(join_with(parts.push(x), sep) == parts[0] + sep + x);
        } else {
            assert(join_with(parts.push(x), sep) == parts[0] + sep + (join_with(
                parts.drop_first(),
                sep,
            ) + sep + x));
            assert(parts[0] + sep + (join_with(parts.drop_first(), sep) + sep + x) =~= (parts[0]
                + sep + join_with(parts.drop_first(), sep)) + sep + x);
        }
    }
}

/// The pieces of `parts` joined with `sep` between them.
pub fn join_strings(parts: &Vec<String>, sep: &str) -> (r: String)
    ensures
        r@ == join_with(parts.deep_view(), sep@),
{
    let mut acc = String::new();
    let n = parts.len();
    let mut i: usize = 0;
    while i < n
        invariant
            n == parts.len(),
            0 <= i <= n,
            acc@ == join_with(parts.deep_view().take(i as int), sep@),
        decreases n - i,
    {
        proof {
            lemma_join_push(parts.deep_view().take(i as int), sep@, parts.deep_view()[i as int]);
            assert(parts.deep_view().take(i as int).push(parts.deep_view()[i as int])
                =~= parts.deep_view().take(i + 1));
        }
        if i > 0 {
            acc.append(sep);
        }
        acc.append(parts[i].as_str());
        assert(parts.deep_view().take(i as int).len() == i as int);
        i = i + 1;
    }
    assert(parts.deep_view().take(n as int) =~= parts.deep_view());
    acc
}

} // verus!
