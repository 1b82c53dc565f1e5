//! Character- and byte-level helpers shared by the parsers and serialisers.

use vstd::prelude::*;
use vstd::utf8::*;

verus! {

/// `String::push` appends one character to the end of the string.
pub assume_specification[ String::push ](s: &mut String, c: char)
    ensures
        final(s)@ == old(s)@.push(c),
;

/// Decodes `bytes` with `std::str::from_utf8`: the text is returned exactly
/// when the bytes are well-formed UTF-8, and it is then their decoding.
#[verifier::external_body]
pub(crate) fn decode_text(bytes: &[u8]) -> (r: Option<String>)
    ensures
        r is Some <==> valid_utf8(bytes@),
        r is Some ==> r->0@ == decode_utf8(bytes@),
{
    match std::str::from_utf8(bytes) {
        Ok(s) => Some(s.to_string()),
        Err(_) => None,
    }
}

/// The characters of `s`, in order.
pub fn chars_of(s: &str) -> (v: Vec<char>)
    ensures
        v@ == s@,
{
    let mut v: Vec<char> = Vec::new();
    for c in it: s.chars()
        invariant
            v@ == it.seq().take(it.index()),
    {
        v.push(c);
    }
    v
}

/// A string holding `chars[from..to]`.
pub fn string_of(chars: &[char], from: usize, to: usize) -> (s: String)
    requires
        from <= to <= chars@.len(),
    ensures
        s@ == chars@.subrange(from as int, to as int),
{
    let mut s = String::new();
    let mut i: usize = from;
    while i < to
        invariant
            from <= i <= to <= chars@.len(),
            s@ == chars@.subrange(from as int, i as int),
        decreases to - i,
    {
        s.push(chars[i]);
        i += 1;
        assert(s@ =~= chars@.subrange(from as int, i as int));
    }
    s
}

/// The bytes of text that holds ASCII characters only.
pub open spec fn ascii_bytes(text: Seq<char>) -> Seq<u8> {
    Seq::new(text.len(), |i: int| text[i] as u8)
}

/// Whether `c` occurs nowhere in `s`.
pub open spec fn free_of(s: Seq<char>, c: char) -> bool {
    forall|i: int| 0 <= i < s.len() ==> s[i] != c
}

/// An index found by executable code, as the mathematical integer.
pub open spec fn as_index(found: Option<usize>) -> Option<int> {
    match found {
        Some(i) => Some(i as int),
        None => None,
    }
}

/// Whether `pat` stands in `s` at index `i`.
pub open spec fn occurs_at<T>(s: Seq<T>, pat: Seq<T>, i: int) -> bool {
    0 <= i && i + pat.len() <= s.len() && s.subrange(i, i + pat.len()) =~= pat
}

/// The least index at or after `from` where `pat` stands in `s`.
pub open spec fn first_occurrence_from<T>(s: Seq<T>, pat: Seq<T>, from: int) -> Option<int>
    decreases s.len() - from,
{
    if from < 0 || from + pat.len() > s.len() {
        None
    } else if occurs_at(s, pat, from) {
        Some(from)
    } else {
        first_occurrence_from(s, pat, from + 1)
    }
}

/// The least index where `pat` stands in `s`.
pub open spec fn first_occurrence<T>(s: Seq<T>, pat: Seq<T>) -> Option<int> {
    first_occurrence_from(s, pat, 0)
}

/// The least index at or after `from` that holds `x`.
pub open spec fn first_index_from<T>(s: Seq<T>, x: T, from: int) -> Option<int>
    decreases s.len() - from,
{
    if from < 0 || from >= s.len() {
        None
    } else if s[from] == x {
        Some(from)
    } else {
        first_index_from(s, x, from + 1)
    }
}

/// The least index that holds `x`.
pub open spec fn first_index<T>(s: Seq<T>, x: T) -> Option<int> {
    first_index_from(s, x, 0)
}

/// The greatest index below `upto` that holds `x`.
pub open spec fn last_index_upto<T>(s: Seq<T>, x: T, upto: int) -> Option<int>
    decreases upto,
{
    if upto <= 0 || upto > s.len() {
        None
    } else if s[upto - 1] == x {
        Some(upto - 1)
    } else {
        last_index_upto(s, x, upto - 1)
    }
}

/// The greatest index that holds `x`.
pub open spec fn last_index<T>(s: Seq<T>, x: T) -> Option<int> {
    last_index_upto(s, x, s.len() as int)
}

/// `first_occurrence_from` returns an occurrence with none between `from` and it,
/// or `None` when there is none at or after `from`.
pub proof fn lemma_first_occurrence_from<T>(s: Seq<T>, pat: Seq<T>, from: int)
    requires
        0 <= from,
    ensures
        match first_occurrence_from(s, pat, from) {
            Some(i) => from <= i && occurs_at(s, pat, i) && forall|j: int|
                from <= j < i ==> !occurs_at(s, pat, j),
            None => forall|j: int| from <= j ==> !occurs_at(s, pat, j),
        },
    decreases s.len() - from,
{
    if from + pat.len() > s.len() {
    } else if occurs_at(s, pat, from) {
    } else {
        lemma_first_occurrence_from(s, pat, from + 1);
    }
}

/// An occurrence at `i` with none before it is the first occurrence.
pub proof fn lemma_first_occurrence_is<T>(s: Seq<T>, pat: Seq<T>, i: int)
    requires
        occurs_at(s, pat, i),
        forall|j: int| 0 <= j < i ==> !occurs_at(s, pat, j),
    ensures
        first_occurrence(s, pat) == Some(i),
{
    lemma_first_occurrence_from(s, pat, 0);
}

/// `first_index_from` returns an index that holds `x` with none between `from`
/// and it, or `None` when no index at or after `from` holds `x`.
pub proof fn lemma_first_index_from<T>(s: Seq<T>, x: T, from: int)
    requires
        0 <= from,
    ensures
        match first_index_from(s, x, from) {
            Some(i) => from <= i < s.len() && s[i] == x && forall|j: int|
                from <= j < i ==> s[j] != x,
            None => forall|j: int| from <= j < s.len() ==> s[j] != x,
        },
    decreases s.len() - from,
{
    if from < s.len() && s[from] != x {
        lemma_first_index_from(s, x, from + 1);
    }
}

/// An index that holds `x` with none before it is the first index of `x`.
pub proof fn lemma_first_index_is<T>(s: Seq<T>, x: T, i: int)
    requires
        0 <= i < s.len(),
        s[i] == x,
        forall|j: int| 0 <= j < i ==> s[j] != x,
    ensures
        first_index(s, x) == Some(i),
{
    lemma_first_index_from(s, x, 0);
}

/// Where no index holds `x`, there is no first index.
pub proof fn lemma_first_index_none<T>(s: Seq<T>, x: T)
    requires
        forall|j: int| 0 <= j < s.len() ==> s[j] != x,
    ensures
        first_index(s, x) is None,
{
    lemma_first_index_from(s, x, 0);
}

/// `last_index_upto` returns an index that holds `x` with none between it and
/// `upto`, or `None` when no index below `upto` holds `x`.
pub proof fn lemma_last_index_upto<T>(s: Seq<T>, x: T, upto: int)
    requires
        upto <= s.len(),
    ensures
        match last_index_upto(s, x, upto) {
            Some(i) => 0 <= i < upto && s[i] == x && forall|j: int| i < j < upto ==> s[j] != x,
            None => forall|j: int| 0 <= j < upto ==> s[j] != x,
        },
    decreases upto,
{
    if upto > 0 && s[upto - 1] != x {
        lemma_last_index_upto(s, x, upto - 1);
    }
}

/// An index that holds `x` with none after it is the last index of `x`.
pub proof fn lemma_last_index_is<T>(s: Seq<T>, x: T, i: int)
    requires
        0 <= i < s.len(),
        s[i] == x,
        forall|j: int| i < j < s.len() ==> s[j] != x,
    ensures
        last_index(s, x) == Some(i),
{
    lemma_last_index_upto(s, x, s.len() as int);
}

/// Where no index holds `x`, there is no last index.
pub proof fn lemma_last_index_none<T>(s: Seq<T>, x: T)
    requires
        forall|j: int| 0 <= j < s.len() ==> s[j] != x,
    ensures
        last_index(s, x) is None,
{
    lemma_last_index_upto(s, x, s.len() as int);
}

/// Whether `s` holds `pat` at index `i`.
fn matches_at(s: &[char], pat: &[char], i: usize) -> (r: bool)
    requires
        i + pat@.len() <= s@.len(),
    ensures
        r == occurs_at(s@, pat@, i as int),
{
    let n: usize = s.len();
    let mut k: usize = 0;
    while k < pat.len()
        invariant
            k <= pat@.len(),
            i + pat@.len() <= s@.len() == n,
            forall|m: int| 0 <= m < k ==> s@[i + m] == pat@[m],
        decreases pat@.len() - k,
    {
        if s[i + k] != pat[k] {
            assert(s@.subrange(i as int, i + pat@.len())[k as int] != pat@[k as int]);
            return false;
        }
        k += 1;
    }
    assert(s@.subrange(i as int, i + pat@.len()) =~= pat@);
    true
}

/// The first place where `pat` stands in `s`.
pub fn find(s: &[char], pat: &[char]) -> (r: Option<usize>)
    ensures
        as_index(r) == first_occurrence(s@, pat@),
        r is Some ==> r->0 + pat@.len() <= s@.len(),
{
    if pat.len() > s.len() {
        return None;
    }
    let last: usize = s.len() - pat.len();
    let mut i: usize = 0;
    while i <= last
        invariant
            last == s@.len() - pat@.len(),
            i <= last,
            first_occurrence(s@, pat@) == first_occurrence_from(s@, pat@, i as int),
        decreases last - i,
    {
        if matches_at(s, pat, i) {
            return Some(i);
        }
        if i == last {
            return None;
        }
        i += 1;
    }
    None
}

/// The first index of `s` that holds `c`.
pub fn find_char(s: &[char], c: char) -> (r: Option<usize>)
    ensures
        as_index(r) == first_index(s@, c),
        r is Some ==> r->0 < s@.len(),
{
    let mut i: usize = 0;
    while i < s.len()
        invariant
            i <= s@.len(),
            first_index(s@, c) == first_index_from(s@, c, i as int),
        decreases s@.len() - i,
    {
        if s[i] == c {
            return Some(i);
        }
        i += 1;
    }
    None
}

/// The last index of `s` that holds `c`.
pub fn rfind_char(s: &[char], c: char) -> (r: Option<usize>)
    ensures
        as_index(r) == last_index(s@, c),
        r is Some ==> r->0 < s@.len(),
{
    let mut i: usize = s.len();
    while i > 0
        invariant
            i <= s@.len(),
            last_index(s@, c) == last_index_upto(s@, c, i as int),
        decreases i,
    {
        if s[i - 1] == c {
            return Some(i - 1);
        }
        i -= 1;
    }
    None
}

/// Whether `c` is white space: the code points that Unicode gives the
/// property `White_Space`.
pub open spec fn is_whitespace(c: char) -> bool {
    let u = c as u32;
    ||| 0x09 <= u <= 0x0D
    ||| u == 0x20
    ||| u == 0x85
    ||| u == 0xA0
    ||| u == 0x1680
    ||| 0x2000 <= u <= 0x200A
    ||| u == 0x2028
    ||| u == 0x2029
    ||| u == 0x202F
    ||| u == 0x205F
    ||| u == 0x3000
}

/// Whether `c` is white space.
pub fn char_is_whitespace(c: char) -> (r: bool)
    ensures
        r == is_whitespace(c),
{
    let u: u32 = c as u32;
    (0x09 <= u && u <= 0x0D) || u == 0x20 || u == 0x85 || u == 0xA0 || u == 0x1680 || (0x2000 <= u
        && u <= 0x200A) || u == 0x2028 || u == 0x2029 || u == 0x202F || u == 0x205F || u == 0x3000
}

/// The end of the run that starts at `from` and whose characters are all white
/// space (`ws`) or all not white space (`!ws`).
pub open spec fn run_end(s: Seq<char>, from: int, ws: bool) -> int
    decreases s.len() - from,
{
    if from < 0 || from >= s.len() || is_whitespace(s[from]) != ws {
        from
    } else {
        run_end(s, from + 1, ws)
    }
}

/// The token at position `n` (from 0) among the maximal runs of characters that
/// are not white space, searched from index `from` on.
pub open spec fn token_from(s: Seq<char>, from: int, n: nat) -> Option<Seq<char>>
    decreases n,
{
    let start = run_end(s, from, true);
    let end = run_end(s, start, false);
    if from < 0 || start >= s.len() {
        None
    } else if n == 0 {
        Some(s.subrange(start, end))
    } else {
        token_from(s, end, (n - 1) as nat)
    }
}

/// The token at position `n` (from 0) of `s`, split at white space.
pub open spec fn token(s: Seq<char>, n: nat) -> Option<Seq<char>> {
    token_from(s, 0, n)
}

/// `s` without its leading white space.
pub open spec fn trim_start(s: Seq<char>) -> Seq<char> {
    s.skip(run_end(s, 0, true))
}

/// `s` without its trailing white space.
pub open spec fn trim_end(s: Seq<char>) -> Seq<char>
    decreases s.len(),
{
    if s.len() > 0 && is_whitespace(s.last()) {
        trim_end(s.drop_last())
    } else {
        s
    }
}

/// `s` without its leading and trailing white space.
pub open spec fn trim(s: Seq<char>) -> Seq<char> {
    trim_end(trim_start(s))
}

/// Whether `s` ends with `pat`.
pub open spec fn ends_with<T>(s: Seq<T>, pat: Seq<T>) -> bool {
    pat.len() <= s.len() && s.skip(s.len() - pat.len()) =~= pat
}

/// `s` without the repetitions of `pat` at its end.
pub open spec fn trim_end_matches(s: Seq<char>, pat: Seq<char>) -> Seq<char>
    decreases s.len(),
{
    if pat.len() > 0 && ends_with(s, pat) {
        trim_end_matches(s.take(s.len() - pat.len()), pat)
    } else {
        s
    }
}

/// The end of the run of white space (`ws`) or of other characters (`!ws`)
/// that starts at `from`.
pub fn scan_run(s: &[char], from: usize, ws: bool) -> (r: usize)
    requires
        from <= s@.len(),
    ensures
        r as int == run_end(s@, from as int, ws),
        from <= r <= s@.len(),
{
    let mut i: usize = from;
    while i < s.len() && char_is_whitespace(s[i]) == ws
        invariant
            from <= i <= s@.len(),
            run_end(s@, from as int, ws) == run_end(s@, i as int, ws),
        decreases s@.len() - i,
    {
        i += 1;
    }
    i
}

/// The bounds in `s` of the token at position `n` (from 0), split at white
/// space.
pub fn nth_token(s: &[char], n: usize) -> (r: Option<(usize, usize)>)
    ensures
        match r {
            Some((start, end)) => start <= end <= s@.len() && token(s@, n as nat) == Some(
                s@.subrange(start as int, end as int),
            ),
            None => token(s@, n as nat) is None,
        },
{
    let mut from: usize = 0;
    let mut k: usize = n;
    loop
        invariant
            from <= s@.len(),
            k <= n,
            token(s@, n as nat) == token_from(s@, from as int, k as nat),
        decreases k,
    {
        let start: usize = scan_run(s, from, true);
        let end: usize = scan_run(s, start, false);
        if start >= s.len() {
            return None;
        }
        if k == 0 {
            return Some((start, end));
        }
        from = end;
        k -= 1;
    }
}

/// The bounds in `s` of `trim(s)`.
pub fn trim_bounds(s: &[char]) -> (r: (usize, usize))
    ensures
        r.0 <= r.1 <= s@.len(),
        s@.subrange(r.0 as int, r.1 as int) == trim(s@),
{
    let start: usize = scan_run(s, 0, true);
    let mut end: usize = s.len();
    while end > start && char_is_whitespace(s[end - 1])
        invariant
            start <= end <= s@.len(),
            trim(s@) == trim_end(s@.subrange(start as int, end as int)),
        decreases end,
    {
        assert(s@.subrange(start as int, end as int).drop_last() =~= s@.subrange(
            start as int,
            end - 1,
        ));
        end -= 1;
    }
    (start, end)
}

/// The length of `s` without the repetitions of `pat` at its end.
pub fn trim_end_matches_len(s: &[char], pat: &[char]) -> (r: usize)
    ensures
        r <= s@.len(),
        s@.take(r as int) == trim_end_matches(s@, pat@),
{
    let mut end: usize = s.len();
    if pat.len() == 0 {
        assert(s@.take(end as int) =~= s@);
        return end;
    }
    assert(s@.take(end as int) =~= s@);
    while end >= pat.len() && matches_at(s, pat, end - pat.len())
        invariant
            end <= s@.len(),
            pat@.len() > 0,
            trim_end_matches(s@, pat@) == trim_end_matches(s@.take(end as int), pat@),
        decreases end,
    {
        proof {
            let t = s@.take(end as int);
            assert(t.skip(t.len() - pat@.len()) =~= s@.subrange(end - pat@.len(), end as int));
            assert(t.take(t.len() - pat@.len()) =~= s@.take(end - pat@.len()));
        }
        end -= pat.len();
    }
    proof {
        let t = s@.take(end as int);
        if pat@.len() <= t.len() {
            assert(t.skip(t.len() - pat@.len()) =~= s@.subrange(end - pat@.len(), end as int));
        }
    }
    end
}

/// Whether two character sequences are equal.
pub fn chars_eq(a: &[char], b: &[char]) -> (r: bool)
    ensures
        r == (a@ == b@),
{
    if a.len() != b.len() {
        return false;
    }
    let mut i: usize = 0;
    while i < a.len()
        invariant
            a@.len() == b@.len(),
            i <= a@.len(),
            forall|k: int| 0 <= k < i ==> a@[k] == b@[k],
        decreases a@.len() - i,
    {
        if a[i] != b[i] {
            return false;
        }
        i += 1;
    }
    assert(a@ =~= b@);
    true
}

/// Whether `s` starts with `pat`.
pub open spec fn starts_with<T>(s: Seq<T>, pat: Seq<T>) -> bool {
    pat.len() <= s.len() && s.take(pat.len() as int) =~= pat
}

/// `s` without the occurrences of `pat`, found from the left, each search
/// going on behind the occurrence before. An empty `pat` takes nothing away.
pub open spec fn without(s: Seq<char>, pat: Seq<char>) -> Seq<char>
    decreases s.len(),
{
    match first_occurrence(s, pat) {
        Some(i) => if pat.len() > 0 && 0 <= i && i + pat.len() <= s.len() {
            s.take(i) + without(s.skip(i + pat.len()), pat)
        } else {
            s
        },
        None => s,
    }
}

/// Whether `s` starts with `pat`.
pub fn has_prefix(s: &[char], pat: &[char]) -> (r: bool)
    ensures
        r == starts_with(s@, pat@),
{
    if pat.len() > s.len() {
        return false;
    }
    let r = matches_at(s, pat, 0);
    assert(s@.subrange(0, 0 + pat@.len() as int) =~= s@.take(pat@.len() as int));
    r
}

/// `s` without the occurrences of `pat`.
pub fn remove_all(s: &[char], pat: &[char]) -> (r: String)
    ensures
        r@ == without(s@, pat@),
{
    let mut out = String::new();
    if pat.len() == 0 {
        let whole = string_of(s, 0, s.len());
        assert(s@.subrange(0, s@.len() as int) =~= s@);
        return whole;
    }
    let mut rest: &[char] = s;
    assert(out@ + without(rest@, pat@) =~= without(s@, pat@));
    loop
        invariant_except_break
            out@ + without(rest@, pat@) == without(s@, pat@),
            pat@.len() > 0,
        ensures
            out@ == without(s@, pat@),
        decreases rest@.len(),
    {
        let ghost before = out@;
        let n: usize = rest.len();
        match find(rest, pat) {
            Some(i) => {
                let mut k: usize = 0;
                while k < i
                    invariant
                        k <= i <= rest@.len(),
                        out@ == before + rest@.take(k as int),
                    decreases i - k,
                {
                    out.push(rest[k]);
                    k += 1;
                    assert(out@ =~= before + rest@.take(k as int));
                }
                let next = vstd::slice::slice_subrange(rest, i + pat.len(), n);
                assert(before + (rest@.take(i as int) + without(next@, pat@)) =~= out@ + without(
                    next@,
                    pat@,
                ));
                rest = next;
            },
            None => {
                let mut k: usize = 0;
                while k < n
                    invariant
                        k <= n == rest@.len(),
                        out@ == before + rest@.take(k as int),
                    decreases n - k,
                {
                    out.push(rest[k]);
                    k += 1;
                    assert(out@ =~= before + rest@.take(k as int));
                }
                assert(rest@.take(n as int) =~= rest@);
                break ;
            },
        }
    }
    out
}

} // verus!
