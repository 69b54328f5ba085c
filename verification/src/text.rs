//! Character-level string utilities: trimming, splitting and joining on a
//! separator, and exact equality of string slices. Every executable function
//! is specified against a recursive mathematical model of the operation.

use vstd::prelude::*;

verus! {

/// Whitespace characters recognized by the trimming operations.
pub open spec fn is_space_char(c: char) -> bool {
    c == ' ' || c == '\t' || c == '\n' || c == '\r'
}

/// `s` with every leading character satisfying `p` removed.
pub open spec fn trim_start_by(s: Seq<char>, p: spec_fn(char) -> bool) -> Seq<char>
    decreases s.len(),
{
    if s.len() > 0 && p(s[0]) {
        trim_start_by(s.drop_first(), p)
    } else {
        s
    }
}

/// `s` with every trailing character satisfying `p` removed.
pub open spec fn trim_end_by(s: Seq<char>, p: spec_fn(char) -> bool) -> Seq<char>
    decreases s.len(),
{
    if s.len() > 0 && p(s.last()) {
        trim_end_by(s.drop_last(), p)
    } else {
        s
    }
}

/// `s` with surrounding characters satisfying `p` removed.
pub open spec fn trim_by(s: Seq<char>, p: spec_fn(char) -> bool) -> Seq<char> {
    trim_end_by(trim_start_by(s, p), p)
}

/// `s` with surrounding whitespace removed.
pub open spec fn trim_spec(s: Seq<char>) -> Seq<char> {
    trim_by(s, |c: char| is_space_char(c))
}

proof fn lemma_trim_start_by_is_subrange(s: Seq<char>, p: spec_fn(char) -> bool, i: int)
    requires
        0 <= i <= s.len(),
        forall|k: int| 0 <= k < i ==> p(s[k]),
        i < s.len() ==> !p(s[i]),
    ensures
        trim_start_by(s, p) == s.subrange(i, s.len() as int),
    decreases s.len(),
{
    if s.len() > 0 && p(s[0]) {
        assert(i > 0);
        lemma_trim_start_by_is_subrange(s.drop_first(), p, i - 1);
        assert(s.drop_first().subrange(i - 1, s.drop_first().len() as int) =~= s.subrange(
            i,
            s.len() as int,
        ));
    } else {
        assert(i == 0);
        assert(s.subrange(0, s.len() as int) =~= s);
    }
}

proof fn lemma_trim_end_by_is_subrange(s: Seq<char>, p: spec_fn(char) -> bool, j: int)
    requires
        0 <= j <= s.len(),
        forall|k: int| j <= k < s.len() ==> p(s[k]),
        j > 0 ==> !p(s[j - 1]),
    ensures
        trim_end_by(s, p) == s.subrange(0, j),
    decreases s.len(),
{
    if s.len() > 0 && p(s.last()) {
        assert(j < s.len());
        lemma_trim_end_by_is_subrange(s.drop_last(), p, j);
        assert(s.drop_last().subrange(0, j) =~= s.subrange(0, j));
    } else {
        assert(j == s.len());
        assert(s.subrange(0, s.len() as int) =~= s);
    }
}

/// Index of the first occurrence of `sep` in `s`, or `-1` if absent.
pub open spec fn find_char(s: Seq<char>, sep: char) -> int
    decreases s.len(),
{
    if s.len() == 0 {
        -1
    } else if s[0] == sep {
        0
    } else {
        let r = find_char(s.drop_first(), sep);
        if r < 0 {
            -1
        } else {
            r + 1
        }
    }
}

pub proof fn lemma_find_char_props(s: Seq<char>, sep: char)
    ensures
        -1 <= find_char(s, sep) < s.len(),
        find_char(s, sep) >= 0 ==> s[find_char(s, sep)] == sep,
        forall|k: int| 0 <= k < find_char(s, sep) ==> s[k] != sep,
        find_char(s, sep) == -1 ==> forall|k: int| 0 <= k < s.len() ==> s[k] != sep,
    decreases s.len(),
{
    if s.len() == 0 {
    } else if s[0] == sep {
    } else {
        lemma_find_char_props(s.drop_first(), sep);
        let r = find_char(s.drop_first(), sep);
        if r >= 0 {
            assert forall|k: int| 0 <= k < r + 1 implies s[k] != sep by {
                if k > 0 {
                    assert(s.drop_first()[k - 1] != sep);
                }
            }
        } else {
            assert forall|k: int| 0 <= k < s.len() implies s[k] != sep by {
                if k > 0 {
                    assert(s.drop_first()[k - 1] != sep);
                }
            }
        }
    }
}

pub proof fn lemma_find_char_at(s: Seq<char>, sep: char, i: int)
    requires
        0 <= i < s.len(),
        s[i] == sep,
        forall|k: int| 0 <= k < i ==> s[k] != sep,
    ensures
        find_char(s, sep) == i,
    decreases s.len(),
{
    if i > 0 {
        lemma_find_char_at(s.drop_first(), sep, i - 1);
    }
}

pub proof fn lemma_find_char_none(s: Seq<char>, sep: char)
    requires
        forall|k: int| 0 <= k < s.len() ==> s[k] != sep,
    ensures
        find_char(s, sep) == -1,
    decreases s.len(),
{
    if s.len() > 0 {
        lemma_find_char_none(s.drop_first(), sep);
    }
}

/// The fields of `s` delimited by `sep`: splitting the empty string gives one
/// empty field, and every separator ends one field and starts the next.
pub open spec fn split_spec(s: Seq<char>, sep: char) -> Seq<Seq<char>>
    decreases s.len(),
{
    let i = find_char(s, sep);
    if i < 0 || i >= s.len() {
        seq![s]
    } else {
        seq![s.subrange(0, i)] + split_spec(s.subrange(i + 1, s.len() as int), sep)
    }
}

pub proof fn lemma_split_spec_len(s: Seq<char>, sep: char)
    ensures
        split_spec(s, sep).len() >= 1,
    decreases s.len(),
{
}

/// The fields of `parts` joined back together with `sep` between them.
pub open spec fn join_spec(parts: Seq<Seq<char>>, sep: char) -> Seq<char>
    decreases parts.len(),
{
    if parts.len() == 0 {
        Seq::empty()
    } else if parts.len() == 1 {
        parts[0]
    } else {
        parts[0] + seq![sep] + join_spec(parts.drop_first(), sep)
    }
}

/// Joining the fields of a split reproduces the string that was split.
pub proof fn lemma_join_split(s: Seq<char>, sep: char)
    ensures
        join_spec(split_spec(s, sep), sep) == s,
    decreases s.len(),
{
    lemma_find_char_props(s, sep);
    let i = find_char(s, sep);
    if i < 0 {
    } else {
        let rest = s.subrange(i + 1, s.len() as int);
        lemma_join_split(rest, sep);
        lemma_split_spec_len(rest, sep);
        let parts = split_spec(s, sep);
        assert(parts.drop_first() =~= split_spec(rest, sep));
        assert(s.subrange(0, i) + seq![sep] + rest =~= s);
    }
}

/// Exact equality of two string slices, decided character by character.
pub fn str_eq(a: &str, b: &str) -> (r: bool)
    ensures
        r <==> a@ == b@,
{
    let alen = a.unicode_len();
    let blen = b.unicode_len();
    if alen != blen {
        return false;
    }
    let mut i: usize = 0;
    while i < alen
        invariant
            alen == a@.len(),
            blen == b@.len(),
            alen == blen,
            0 <= i <= alen,
            forall|k: int| 0 <= k < i ==> a@[k] == b@[k],
        decreases alen - i,
    {
        if a.get_char(i) != b.get_char(i) {
            return false;
        }
        i += 1;
    }
    proof {
        assert(a@ =~= b@);
    }
    true
}

/// The substring of `s` with surrounding whitespace removed.
pub fn trim_str<'a>(s: &'a str) -> (r: &'a str)
    ensures
        r@ == trim_spec(s@),
{
    let len = s.unicode_len();
    let mut i: usize = 0;
    while i < len && is_space_exec(s.get_char(i))
        invariant
            len == s@.len(),
            0 <= i <= len,
            forall|k: int| 0 <= k < i ==> is_space_char(s@[k]),
        decreases len - i,
    {
        i += 1;
    }
    let mut j: usize = len;
    while j > i && is_space_exec(s.get_char(j - 1))
        invariant
            len == s@.len(),
            i <= j <= len,
            forall|k: int| 0 <= k < i ==> is_space_char(s@[k]),
            i < len ==> !is_space_char(s@[i as int]),
            forall|k: int| j <= k < len ==> is_space_char(s@[k]),
        decreases j,
    {
        j -= 1;
    }
    proof {
        let p = |c: char| is_space_char(c);
        if i == len {
            lemma_trim_start_by_is_subrange(s@, p, i as int);
            assert(trim_start_by(s@, p) =~= Seq::<char>::empty());
            lemma_trim_end_by_is_subrange(Seq::<char>::empty(), p, 0);
            assert(trim_spec(s@) =~= s@.subrange(i as int, j as int));
        } else {
            lemma_trim_start_by_is_subrange(s@, p, i as int);
            let mid = s@.subrange(i as int, len as int);
            lemma_trim_end_by_is_subrange(mid, p, j - i);
            assert(mid.subrange(0, j - i) =~= s@.subrange(i as int, j as int));
        }
    }
    s.substring_char(i, j)
}

/// Whether `c` is one of the whitespace characters the trimmers remove.
pub fn is_space_exec(c: char) -> (r: bool)
    ensures
        r == is_space_char(c),
{
    c == ' ' || c == '\t' || c == '\n' || c == '\r'
}

/// The fields of `s` delimited by `sep`, as owned strings.
pub fn split_str(s: &str, sep: char) -> (r: Vec<String>)
    ensures
        r.deep_view() == split_spec(s@, sep),
        r.len() >= 1,
{
    let len = s.unicode_len();
    let mut out: Vec<String> = Vec::new();
    let mut start: usize = 0;
    let mut i: usize = 0;
    proof {
        assert(out.deep_view() =~= Seq::<Seq<char>>::empty());
        assert(s@.subrange(0, len as int) =~= s@);
    }
    while i < len
        invariant
            len == s@.len(),
            0 <= start <= i <= len,
            forall|k: int| start <= k < i ==> s@[k] != sep,
            out.deep_view() + split_spec(s@.subrange(start as int, len as int), sep) =~= split_spec(
                s@,
                sep,
            ),
        decreases len - i,
    {
        if s.get_char(i) == sep {
            let tok = s.substring_char(start, i);
            let ghost prev = out.deep_view();
            out.push(tok.to_owned());
            proof {
                assert(out.deep_view() =~= prev.push(tok@));
                let suff = s@.subrange(start as int, len as int);
                assert(suff[i - start] == sep);
                assert(forall|k: int| 0 <= k < i - start ==> suff[k] != sep);
                lemma_find_char_at(suff, sep, i - start);
                assert(suff.subrange(0, i - start) =~= s@.subrange(start as int, i as int));
                assert(suff.subrange(i - start + 1, suff.len() as int) =~= s@.subrange(
                    i + 1,
                    len as int,
                ));
                assert(out.deep_view() + split_spec(s@.subrange(i + 1, len as int), sep)
                    =~= prev + split_spec(suff, sep));
            }
            start = i + 1;
        }
        i += 1;
    }
    let tok = s.substring_char(start, len);
    let ghost prev = out.deep_view();
    out.push(tok.to_owned());
    proof {
        let suff = s@.subrange(start as int, len as int);
        lemma_find_char_none(suff, sep);
        assert(out.deep_view() =~= prev.push(tok@));
        assert(out.deep_view() =~= prev + seq![suff]);
        lemma_split_spec_len(s@, sep);
    }
    out
}

/// Appending one more field to a join adds a separator and the field.
pub proof fn lemma_join_push(parts: Seq<Seq<char>>, q: Seq<char>, sep: char)
    requires
        parts.len() >= 1,
    ensures
        join_spec(parts.push(q), sep) == join_spec(parts, sep) + seq![sep] + q,
    decreases parts.len(),
{
    if parts.len() == 1 {
        assert(parts.push(q)[0] == parts[0]);
        assert(parts.push(q).drop_first() =~= seq![q]);
        assert(join_spec(seq![q], sep) == q);
    } else {
        lemma_join_push(parts.drop_first(), q, sep);
        assert(parts.push(q).drop_first() =~= parts.drop_first().push(q));
        assert(parts.push(q)[0] == parts[0]);
    }
}

/// The fields of `parts` joined with `sep` between them, as one owned string.
pub fn join_strs(parts: &Vec<String>, sep: char) -> (r: String)
    ensures
        r@ == join_spec(parts.deep_view(), sep),
{
    let mut out = String::new();
    let n = parts.len();
    let mut i: usize = 0;
    while i < n
        invariant
            n == parts.len(),
            0 <= i <= n,
            out@ == join_spec(parts.deep_view().subrange(0, i as int), sep),
        decreases n - i,
    {
        if i > 0 {
            push_char(&mut out, sep);
        }
        out.append(parts[i].as_str());
        proof {
            let all = parts.deep_view();
            assert(parts[i as int]@ == all[i as int]);
            assert(all.subrange(0, i + 1) =~= all.subrange(0, i as int).push(all[i as int]));
            if i > 0 {
                lemma_join_push(all.subrange(0, i as int), all[i as int], sep);
            } else {
                assert(all.subrange(0, 1) =~= seq![all[0]]);
            }
        }
        i += 1;
    }
    proof {
        assert(parts.deep_view().subrange(0, n as int) =~= parts.deep_view());
    }
    out
}

/// Relies on `String::push` from std: appends exactly the given character.
#[verifier::external_body]
pub fn push_char(s: &mut String, c: char)
    ensures
        final(s)@ == old(s)@ + seq![c],
{
    s.push(c);
}


/// Whether `c` is the NUL character used as padding at the end of some files.
pub open spec fn is_nul_char(c: char) -> bool {
    c == '\0'
}

/// `s` with trailing NUL padding removed.
pub open spec fn strip_nuls_spec(s: Seq<char>) -> Seq<char> {
    trim_end_by(s, |c: char| is_nul_char(c))
}

/// `s` with a trailing carriage return removed.
pub open spec fn trim_cr_spec(s: Seq<char>) -> Seq<char> {
    if s.len() > 0 && s.last() == '\r' {
        s.drop_last()
    } else {
        s
    }
}

/// The logical lines of `s`: split on newlines, each stripped of a trailing
/// carriage return.
pub open spec fn lines_of(s: Seq<char>) -> Seq<Seq<char>> {
    split_spec(s, '\n').map_values(|l: Seq<char>| trim_cr_spec(l))
}

/// `s` with every leading `#` comment marker removed.
pub open spec fn strip_hashes_spec(s: Seq<char>) -> Seq<char> {
    trim_start_by(s, |c: char| c == '#')
}

/// `s` with surrounding double-quote characters removed.
pub open spec fn trim_quotes_spec(s: Seq<char>) -> Seq<char> {
    trim_by(s, |c: char| c == '"')
}

/// The substring of `s` with trailing NUL padding removed.
pub fn strip_trailing_nuls<'a>(s: &'a str) -> (r: &'a str)
    ensures
        r@ == strip_nuls_spec(s@),
{
    let len = s.unicode_len();
    let mut j: usize = len;
    while j > 0 && s.get_char(j - 1) == '\0'
        invariant
            len == s@.len(),
            0 <= j <= len,
            forall|k: int| j <= k < len ==> is_nul_char(s@[k]),
        decreases j,
    {
        j -= 1;
    }
    proof {
        let p = |c: char| is_nul_char(c);
        lemma_trim_end_by_is_subrange(s@, p, j as int);
    }
    s.substring_char(0, j)
}

/// The substring of `s` with every leading `#` removed.
pub fn strip_leading_hashes<'a>(s: &'a str) -> (r: &'a str)
    ensures
        r@ == strip_hashes_spec(s@),
{
    let len = s.unicode_len();
    let mut i: usize = 0;
    while i < len && s.get_char(i) == '#'
        invariant
            len == s@.len(),
            0 <= i <= len,
            forall|k: int| 0 <= k < i ==> s@[k] == '#',
        decreases len - i,
    {
        i += 1;
    }
    proof {
        let p = |c: char| c == '#';
        lemma_trim_start_by_is_subrange(s@, p, i as int);
    }
    s.substring_char(i, len)
}

/// The substring of `s` with surrounding double quotes removed.
pub fn trim_quotes<'a>(s: &'a str) -> (r: &'a str)
    ensures
        r@ == trim_quotes_spec(s@),
{
    let len = s.unicode_len();
    let mut i: usize = 0;
    while i < len && s.get_char(i) == '"'
        invariant
            len == s@.len(),
            0 <= i <= len,
            forall|k: int| 0 <= k < i ==> s@[k] == '"',
        decreases len - i,
    {
        i += 1;
    }
    let mut j: usize = len;
    while j > i && s.get_char(j - 1) == '"'
        invariant
            len == s@.len(),
            i <= j <= len,
            forall|k: int| 0 <= k < i ==> s@[k] == '"',
            i < len ==> s@[i as int] != '"',
            forall|k: int| j <= k < len ==> s@[k] == '"',
        decreases j,
    {
        j -= 1;
    }
    proof {
        let p = |c: char| c == '"';
        if i == len {
            lemma_trim_start_by_is_subrange(s@, p, i as int);
            assert(trim_start_by(s@, p) =~= Seq::<char>::empty());
            lemma_trim_end_by_is_subrange(Seq::<char>::empty(), p, 0);
            assert(trim_quotes_spec(s@) =~= s@.subrange(i as int, j as int));
        } else {
            lemma_trim_start_by_is_subrange(s@, p, i as int);
            let mid = s@.subrange(i as int, len as int);
            lemma_trim_end_by_is_subrange(mid, p, j - i);
            assert(mid.subrange(0, j - i) =~= s@.subrange(i as int, j as int));
        }
    }
    s.substring_char(i, j)
}

/// The logical lines of `s`, split on newlines with trailing carriage
/// returns removed.
pub fn split_lines(s: &str) -> (r: Vec<String>)
    ensures
        r.deep_view() == lines_of(s@),
        r.len() >= 1,
{
    let raw = split_str(s, '\n');
    let mut out: Vec<String> = Vec::new();
    let n = raw.len();
    let mut i: usize = 0;
    while i < n
        invariant
            n == raw.len(),
            0 <= i <= n,
            raw.deep_view() == split_spec(s@, '\n'),
            out.deep_view() == raw.deep_view().subrange(0, i as int).map_values(
                |l: Seq<char>| trim_cr_spec(l),
            ),
        decreases n - i,
    {
        let line = &raw[i];
        let llen = line.as_str().unicode_len();
        let trimmed: String = if llen > 0 && line.as_str().get_char(llen - 1) == '\r' {
            line.as_str().substring_char(0, llen - 1).to_owned()
        } else {
            clone_string_text(line)
        };
        proof {
            assert(line@ == raw.deep_view()[i as int]);
            assert(line@.subrange(0, llen - 1) =~= line@.drop_last());
            assert(trimmed@ == trim_cr_spec(raw.deep_view()[i as int]));
        }
        let ghost oldout = out.deep_view();
        out.push(trimmed);
        proof {
            let pre = raw.deep_view().subrange(0, i as int);
            let cur = raw.deep_view().subrange(0, i + 1);
            assert(out.deep_view() =~~= oldout.push(trim_cr_spec(raw.deep_view()[i as int])));
            assert(cur =~= pre.push(raw.deep_view()[i as int]));
            assert(out.deep_view() =~~= cur.map_values(|l: Seq<char>| trim_cr_spec(l)));
        }
        i += 1;
    }
    proof {
        assert(raw.deep_view().subrange(0, n as int) =~= raw.deep_view());
        assert(out.deep_view() =~~= lines_of(s@));
        lemma_split_spec_len(s@, '\n');
    }
    out
}

/// A copy of a string with the same characters.
pub fn clone_string_text(s: &String) -> (r: String)
    ensures
        r@ == s@,
{
    s.clone()
}

} // verus!
