//! Track references in free text: `spotify:track:<id>` or
//! `open.spotify.com/track/<id>`, where `<id>` is a run of ASCII letters and
//! digits read in base 62.
use vstd::prelude::*;
use vstd::string::StringSliceAdditionalSpecFns;
use vstd::utf8::encode_utf8;

verus! {

/// A track of the catalogue, as the number that its base-62 text encodes.
#[derive(Clone, Copy, Debug, PartialEq, Eq, Structural)]
pub struct TrackRef {
    pub id: u128,
}

pub open spec fn is_alnum(c: u8) -> bool {
    (48 <= c && c <= 57) || (97 <= c && c <= 122) || (65 <= c && c <= 90)
}

/// The base-62 digit of a letter or digit: `0-9`, then `a-z`, then `A-Z`.
pub open spec fn digit_value(c: u8) -> int {
    if 48 <= c && c <= 57 {
        c - 48
    } else if 97 <= c && c <= 122 {
        c - 97 + 10
    } else {
        c - 65 + 36
    }
}

/// The number that the digits `s` encode, most significant first.
pub open spec fn base62_value(s: Seq<u8>) -> int
    decreases s.len(),
{
    if s.len() == 0 {
        0
    } else {
        base62_value(s.drop_last()) * 62 + digit_value(s.last())
    }
}

/// The text `spotify:track:`.
pub open spec fn uri_form() -> Seq<u8> {
    seq![115u8, 112, 111, 116, 105, 102, 121, 58, 116, 114, 97, 99, 107, 58]
}

/// The text `open.spotify.com/track/`.
pub open spec fn url_form() -> Seq<u8> {
    seq![111u8, 112, 101, 110, 46, 115, 112, 111, 116, 105, 102, 121, 46, 99, 111, 109,
        47, 116, 114, 97, 99, 107, 47]
}

/// `form` stands at `i` in `b` and at least one letter or digit follows it.
pub open spec fn occurs_at(b: Seq<u8>, form: Seq<u8>, i: int) -> bool {
    0 <= i && i + form.len() < b.len() && b.subrange(i, i + form.len()) == form
        && is_alnum(b[i + form.len()])
}

/// `i` is the first place where `form` occurs in `b`.
pub open spec fn leftmost(b: Seq<u8>, form: Seq<u8>, i: int) -> bool {
    occurs_at(b, form, i) && forall|k: int| 0 <= k < i ==> !occurs_at(b, form, k)
}

/// The end of the run of letters and digits that starts at `j`.
pub open spec fn run_end(b: Seq<u8>, j: int) -> int
    decreases b.len() - j,
{
    if j < 0 || j >= b.len() || !is_alnum(b[j]) {
        j
    } else {
        run_end(b, j + 1)
    }
}

/// The identifier text after the first occurrence of `form` in `b`: the whole
/// run of letters and digits that follows it.
pub open spec fn id_text(b: Seq<u8>, form: Seq<u8>) -> Option<Seq<u8>> {
    if exists|i: int| leftmost(b, form, i) {
        let i = choose|i: int| leftmost(b, form, i);
        Some(b.subrange(i + form.len(), run_end(b, i + form.len())))
    } else {
        None
    }
}

/// The identifier text of a line: that of the URI form if it occurs, else
/// that of the URL form.
pub open spec fn reference_text(b: Seq<u8>) -> Option<Seq<u8>> {
    if id_text(b, uri_form()) is Some {
        id_text(b, uri_form())
    } else {
        id_text(b, url_form())
    }
}

/// The track that a line refers to: none where no form occurs, or where the
/// identifier's value does not fit in 128 bits.
pub open spec fn reference_of(b: Seq<u8>) -> Option<TrackRef> {
    match reference_text(b) {
        Some(t) => if base62_value(t) <= u128::MAX {
            Some(TrackRef { id: base62_value(t) as u128 })
        } else {
            None
        },
        None => None,
    }
}

proof fn lemma_leftmost_unique(b: Seq<u8>, form: Seq<u8>, i: int, j: int)
    requires
        leftmost(b, form, i),
        leftmost(b, form, j),
    ensures
        i == j,
{
}

proof fn lemma_id_text_at(b: Seq<u8>, form: Seq<u8>, i: int)
    requires
        leftmost(b, form, i),
    ensures
        id_text(b, form) == Some(b.subrange(i + form.len(), run_end(b, i + form.len()))),
{
    let k = choose|k: int| leftmost(b, form, k);
    lemma_leftmost_unique(b, form, i, k);
}

proof fn lemma_run_end_bounds(b: Seq<u8>, j: int)
    requires
        0 <= j <= b.len(),
    ensures
        j <= run_end(b, j) <= b.len(),
        forall|k: int| j <= k < run_end(b, j) ==> is_alnum(b[k]),
    decreases b.len() - j,
{
    if j < b.len() && is_alnum(b[j]) {
        lemma_run_end_bounds(b, j + 1);
    }
}

proof fn lemma_base62_grows(s: Seq<u8>, n: int)
    requires
        0 <= n <= s.len(),
        forall|k: int| 0 <= k < s.len() ==> is_alnum(s[k]),
    ensures
        0 <= base62_value(s.subrange(0, n)) <= base62_value(s),
    decreases s.len(),
{
    if n < s.len() {
        lemma_base62_grows(s.drop_last(), n);
        assert(s.drop_last().subrange(0, n) =~= s.subrange(0, n));
    } else {
        assert(s.subrange(0, n) =~= s);
        if s.len() > 0 {
            lemma_base62_grows(s.drop_last(), n - 1);
            assert(s.drop_last().subrange(0, n - 1) =~= s.drop_last());
        }
    }
}

fn alnum(c: u8) -> (r: bool)
    ensures
        r == is_alnum(c),
{
    (48 <= c && c <= 57) || (97 <= c && c <= 122) || (65 <= c && c <= 90)
}

fn digit(c: u8) -> (r: u128)
    requires
        is_alnum(c),
    ensures
        r as int == digit_value(c),
        r < 62,
{
    if 48 <= c && c <= 57 {
        (c - 48) as u128
    } else if 97 <= c && c <= 122 {
        (c - 97 + 10) as u128
    } else {
        (c - 65 + 36) as u128
    }
}

fn uri_form_bytes() -> (r: Vec<u8>)
    ensures
        r@ == uri_form(),
{
    let r = vec![115u8, 112, 111, 116, 105, 102, 121, 58, 116, 114, 97, 99, 107, 58];
    assert(r@ =~= uri_form());
    r
}

fn url_form_bytes() -> (r: Vec<u8>)
    ensures
        r@ == url_form(),
{
    let r = vec![111u8, 112, 101, 110, 46, 115, 112, 111, 116, 105, 102, 121, 46, 99, 111,
        109, 47, 116, 114, 97, 99, 107, 47];
    assert(r@ =~= url_form());
    r
}

fn occurs_here(b: &[u8], form: &Vec<u8>, i: usize) -> (r: bool)
    requires
        i <= b@.len(),
    ensures
        r == occurs_at(b@, form@, i as int),
{
    if form.len() >= b.len() - i {
        return false;
    }
    let n = b.len();
    let mut k: usize = 0;
    while k < form.len()
        invariant
            n == b@.len(),
            k <= form@.len(),
            i + form@.len() < b@.len(),
            forall|m: int| 0 <= m < k ==> b@[i + m] == form@[m],
        decreases form@.len() - k,
    {
        if b[i + k] != form[k] {
            assert(b@.subrange(i as int, i + form@.len())[k as int] != form@[k as int]);
            return false;
        }
        k = k + 1;
    }
    assert(b@.subrange(i as int, i + form@.len()) =~= form@);
    alnum(b[i + form.len()])
}

fn find_form(b: &[u8], form: &Vec<u8>) -> (r: Option<usize>)
    ensures
        r matches Some(i) ==> leftmost(b@, form@, i as int),
        r is None ==> forall|i: int| !occurs_at(b@, form@, i),
{
    let mut i: usize = 0;
    while i < b.len()
        invariant
            i <= b@.len(),
            forall|k: int| 0 <= k < i ==> !occurs_at(b@, form@, k),
        decreases b@.len() - i,
    {
        if occurs_here(b, form, i) {
            return Some(i);
        }
        i = i + 1;
    }
    None
}

fn end_of_run(b: &[u8], j: usize) -> (r: usize)
    requires
        j <= b@.len(),
    ensures
        r as int == run_end(b@, j as int),
{
    let mut k: usize = j;
    while k < b.len() && alnum(b[k])
        invariant
            j <= k <= b@.len(),
            run_end(b@, j as int) == run_end(b@, k as int),
        decreases b@.len() - k,
    {
        k = k + 1;
    }
    k
}

/// Reads the digits `b[start..end]` in base 62; `None` when the value does not
/// fit in 128 bits.
fn decode_base62(b: &[u8], start: usize, end: usize) -> (r: Option<u128>)
    requires
        start <= end <= b@.len(),
        forall|k: int| start <= k < end ==> is_alnum(b@[k]),
    ensures
        r matches Some(v) ==> v as int == base62_value(b@.subrange(start as int, end as int)),
        r is None <==> base62_value(b@.subrange(start as int, end as int)) > u128::MAX,
{
    let ghost digits = b@.subrange(start as int, end as int);
    let mut v: u128 = 0;
    let mut k: usize = start;
    assert(digits.subrange(0, 0) =~= Seq::<u8>::empty());
    while k < end
        invariant
            start <= k <= end <= b@.len(),
            digits == b@.subrange(start as int, end as int),
            forall|m: int| start <= m < end ==> is_alnum(b@[m]),
            v as int == base62_value(digits.subrange(0, k - start)),
        decreases end - k,
    {
        let d = digit(b[k]);
        proof {
            assert(digits.subrange(0, k + 1 - start).drop_last() =~= digits.subrange(0, k - start));
            assert(digits.subrange(0, k + 1 - start).last() == b@[k as int]);
            lemma_base62_grows(digits, k + 1 - start);
        }
        match v.checked_mul(62) {
            Some(m) => match m.checked_add(d) {
                Some(n) => {
                    v = n;
                },
                None => {
                    return None;
                },
            },
            None => {
                return None;
            },
        }
        k = k + 1;
    }
    assert(digits.subrange(0, end - start) =~= digits);
    Some(v)
}

fn text_of_form(b: &[u8], form: &Vec<u8>) -> (r: Option<(usize, usize)>)
    ensures
        r is None <==> id_text(b@, form@) is None,
        r matches Some((s, e)) ==> s <= e <= b@.len() && id_text(b@, form@) == Some(
            b@.subrange(s as int, e as int),
        ) && forall|k: int| s <= k < e ==> is_alnum(b@[k]),
{
    match find_form(b, form) {
        Some(i) => {
            let n = b.len();
            assert(i + form@.len() < n);
            let s = i + form.len();
            let e = end_of_run(b, s);
            proof {
                lemma_id_text_at(b@, form@, i as int);
                lemma_run_end_bounds(b@, s as int);
            }
            Some((s, e))
        },
        None => None,
    }
}

proof fn lemma_run_end_exact(b: Seq<u8>, j: int, e: int)
    requires
        0 <= j <= e <= b.len(),
        forall|k: int| j <= k < e ==> is_alnum(b[k]),
        e == b.len() || !is_alnum(b[e]),
    ensures
        run_end(b, j) == e,
    decreases e - j,
{
    if j < e {
        lemma_run_end_exact(b, j + 1, e);
    }
}

proof fn lemma_form_recovered(pre: Seq<u8>, form: Seq<u8>, id: Seq<u8>, post: Seq<u8>)
    requires
        id.len() > 0,
        forall|k: int| 0 <= k < id.len() ==> is_alnum(id[k]),
        post.len() == 0 || !is_alnum(post[0]),
        forall|k: int| 0 <= k < pre.len() ==> !occurs_at(pre + form + id + post, form, k),
    ensures
        id_text(pre + form + id + post, form) == Some(id),
{
    let b = pre + form + id + post;
    let i = pre.len() as int;
    let s = i + form.len();
    let e = s + id.len();
    assert(b.subrange(i, s) =~= form);
    assert(b[s] == id[0]);
    assert(occurs_at(b, form, i));
    assert(leftmost(b, form, i));
    lemma_id_text_at(b, form, i);
    assert forall|k: int| s <= k < e implies is_alnum(b[k]) by {
        assert(b[k] == id[k - s]);
    }
    if e < b.len() {
        assert(b[e] == post[0]);
    }
    lemma_run_end_exact(b, s, e);
    assert(b.subrange(s, e) =~= id);
}

/// A line holding `spotify:track:` and then an identifier yields exactly that
/// identifier's text, whatever stands before and after it, provided the text
/// before holds no earlier reference of that form.
pub proof fn lemma_uri_identifier_recovered(pre: Seq<u8>, id: Seq<u8>, post: Seq<u8>)
    requires
        id.len() > 0,
        forall|k: int| 0 <= k < id.len() ==> is_alnum(id[k]),
        post.len() == 0 || !is_alnum(post[0]),
        forall|k: int|
            0 <= k < pre.len() ==> !occurs_at(pre + uri_form() + id + post, uri_form(), k),
    ensures
        reference_text(pre + uri_form() + id + post) == Some(id),
        base62_value(id) <= u128::MAX ==> reference_of(pre + uri_form() + id + post) == Some(
            TrackRef { id: base62_value(id) as u128 },
        ),
{
    lemma_form_recovered(pre, uri_form(), id, post);
}

/// A line holding `open.spotify.com/track/` and then an identifier, and no
/// reference of the URI form, yields exactly that identifier's text, whatever
/// stands before and after it, provided the text before holds no earlier
/// reference of the URL form.
pub proof fn lemma_url_identifier_recovered(pre: Seq<u8>, id: Seq<u8>, post: Seq<u8>)
    requires
        id.len() > 0,
        forall|k: int| 0 <= k < id.len() ==> is_alnum(id[k]),
        post.len() == 0 || !is_alnum(post[0]),
        forall|k: int| !occurs_at(pre + url_form() + id + post, uri_form(), k),
        forall|k: int|
            0 <= k < pre.len() ==> !occurs_at(pre + url_form() + id + post, url_form(), k),
    ensures
        reference_text(pre + url_form() + id + post) == Some(id),
        base62_value(id) <= u128::MAX ==> reference_of(pre + url_form() + id + post) == Some(
            TrackRef { id: base62_value(id) as u128 },
        ),
{
    let b = pre + url_form() + id + post;
    assert(!exists|i: int| leftmost(b, uri_form(), i));
    lemma_form_recovered(pre, url_form(), id, post);
}

/// The track that `line` refers to: the identifier after the first
/// `spotify:track:` if there is one, else after the first
/// `open.spotify.com/track/`. `None` where neither occurs with an identifier,
/// or where the identifier's value does not fit in 128 bits.
pub fn extract(line: &str) -> (r: Option<TrackRef>)
    ensures
        r == reference_of(line.spec_bytes()),
{
    let b = line.as_bytes();
    let found = match text_of_form(b, &uri_form_bytes()) {
        Some(span) => Some(span),
        None => text_of_form(b, &url_form_bytes()),
    };
    match found {
        Some((s, e)) => match decode_base62(b, s, e) {
            Some(id) => Some(TrackRef { id }),
            None => None,
        },
        None => None,
    }
}

/// The tracks that `lines` refer to, in the order of the lines; a line that
/// refers to none adds nothing.
pub open spec fn references_of(lines: Seq<Seq<char>>) -> Seq<TrackRef>
    decreases lines.len(),
{
    if lines.len() == 0 {
        Seq::empty()
    } else {
        let earlier = references_of(lines.drop_last());
        match reference_of(encode_utf8(lines.last())) {
            Some(t) => earlier.push(t),
            None => earlier,
        }
    }
}

/// A line that refers to no track is skipped: the tracks of the lines are
/// those of the lines without it, so the lines after it are read as if it
/// were absent.
pub proof fn lemma_unmatched_line_skipped(
    before: Seq<Seq<char>>,
    line: Seq<char>,
    after: Seq<Seq<char>>,
)
    requires
        reference_of(encode_utf8(line)) is None,
    ensures
        references_of(before + seq![line] + after) == references_of(before + after),
    decreases after.len(),
{
    if after.len() == 0 {
        assert((before + seq![line] + after).drop_last() =~= before);
        assert(before + after =~= before);
    } else {
        let shorter = after.drop_last();
        lemma_unmatched_line_skipped(before, line, shorter);
        assert((before + seq![line] + after).drop_last() =~= before + seq![line] + shorter);
        assert((before + after).drop_last() =~= before + shorter);
    }
}

/// The tracks that `lines` refer to, one for each line that refers to one,
/// in the order of the lines.
pub fn references(lines: &Vec<String>) -> (r: Vec<TrackRef>)
    ensures
        r@ == references_of(lines@.map_values(|l: String| l@)),
{
    let ghost texts = lines@.map_values(|l: String| l@);
    let mut out: Vec<TrackRef> = Vec::new();
    let mut i: usize = 0;
    while i < lines.len()
        invariant
            i <= lines@.len(),
            texts == lines@.map_values(|l: String| l@),
            out@ == references_of(texts.subrange(0, i as int)),
        decreases lines@.len() - i,
    {
        let found = extract(lines[i].as_str());
        proof {
            assert(texts.subrange(0, i + 1).drop_last() =~= texts.subrange(0, i as int));
            assert(texts.subrange(0, i + 1).last() == lines@[i as int]@);
        }
        match found {
            Some(t) => out.push(t),
            None => {},
        }
        i = i + 1;
    }
    assert(texts.subrange(0, lines@.len() as int) =~= texts);
    out
}

} // verus!
