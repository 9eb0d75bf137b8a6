//! The two persisted metadata documents: the release cache and the build
//! cache.
//!
//! Both are flat key-to-string documents with fixed keys, written with
//! literal tab indentation.  Values are written verbatim, so a value holding
//! a double quote cannot round-trip; all contracts therefore speak of
//! quote-free values.  The release document tolerates an absent
//! `updated_at` key, which defaults to the empty string; every other key is
//! required, and a document that does not carry them parses as nothing.

use vstd::prelude::*;

verus! {

/// Cached metadata of one release feed: an opaque tag, a display name, and
/// the feed-assigned last-update timestamp.  Only `updated_at` ever decides
/// staleness; tags and names may be reused by a rolling feed.
pub struct ReleaseDescriptor {
    pub tag_name: String,
    pub name: String,
    pub updated_at: String,
}

/// The mathematical value of a [`ReleaseDescriptor`].
pub struct ReleaseDescriptorModel {
    pub tag_name: Seq<char>,
    pub name: Seq<char>,
    pub updated_at: Seq<char>,
}

impl View for ReleaseDescriptor {
    type V = ReleaseDescriptorModel;

    open spec fn view(&self) -> ReleaseDescriptorModel {
        ReleaseDescriptorModel {
            tag_name: self.tag_name@,
            name: self.name@,
            updated_at: self.updated_at@,
        }
    }
}

impl DeepView for ReleaseDescriptor {
    type V = ReleaseDescriptorModel;

    open spec fn deep_view(&self) -> ReleaseDescriptorModel {
        self.view()
    }
}

/// Cached key of the last successful build: the source revision that was
/// built and the fingerprint of the plugin directory that went into it.
pub struct BuildState {
    pub git_commit: String,
    pub userplugins_hash: String,
}

/// The mathematical value of a [`BuildState`].
pub struct BuildStateModel {
    pub git_commit: Seq<char>,
    pub userplugins_hash: Seq<char>,
}

impl View for BuildState {
    type V = BuildStateModel;

    open spec fn view(&self) -> BuildStateModel {
        BuildStateModel {
            git_commit: self.git_commit@,
            userplugins_hash: self.userplugins_hash@,
        }
    }
}

impl DeepView for BuildState {
    type V = BuildStateModel;

    open spec fn deep_view(&self) -> BuildStateModel {
        self.view()
    }
}

/// A text that contains no double quote, and so can stand verbatim between
/// quotes in a document.
pub open spec fn quote_free(s: Seq<char>) -> bool {
    forall|i: int| 0 <= i < s.len() ==> s[i] != '"'
}

/// The opening of a release document, up to the `tag_name` value.
pub open spec fn rel_open() -> Seq<char> {
    "{\n\t\"tag_name\": \""@
}

/// The text between the `tag_name` value and the `name` value.
pub open spec fn rel_name_sep() -> Seq<char> {
    "\",\n\t\"name\": \""@
}

/// The text between the `name` value and the `updated_at` value.
pub open spec fn rel_updated_sep() -> Seq<char> {
    "\",\n\t\"updated_at\": \""@
}

/// The closing of a document, after the last value.
pub open spec fn doc_close() -> Seq<char> {
    "\"\n}"@
}

/// The release document with all three keys present.
pub open spec fn release_doc(t: Seq<char>, n: Seq<char>, u: Seq<char>) -> Seq<char> {
    rel_open() + t + rel_name_sep() + n + rel_updated_sep() + u + doc_close()
}

/// The release document without the optional `updated_at` key.
pub open spec fn release_doc_short(t: Seq<char>, n: Seq<char>) -> Seq<char> {
    rel_open() + t + rel_name_sep() + n + doc_close()
}

/// The build document.
pub open spec fn build_doc(c: Seq<char>, h: Seq<char>) -> Seq<char> {
    "{\n\t\"git_commit\": \""@ + c + "\",\n\t\"userplugins_hash\": \""@ + h + "\"\n}"@
}

/// Render a release descriptor as its document.
pub fn render_release(d: &ReleaseDescriptor) -> (s: String)
    ensures
        s@ == release_doc(d.tag_name@, d.name@, d.updated_at@),
{
    let mut s = String::from_str("{\n\t\"tag_name\": \"");
    s.append(d.tag_name.as_str());
    s.append("\",\n\t\"name\": \"");
    s.append(d.name.as_str());
    s.append("\",\n\t\"updated_at\": \"");
    s.append(d.updated_at.as_str());
    s.append("\"\n}");
    proof {
        assert(s@ =~= release_doc(d.tag_name@, d.name@, d.updated_at@));
    }
    s
}

/// Render a build state as its document.
pub fn render_build(st: &BuildState) -> (s: String)
    ensures
        s@ == build_doc(st.git_commit@, st.userplugins_hash@),
{
    let mut s = String::from_str("{\n\t\"git_commit\": \"");
    s.append(st.git_commit.as_str());
    s.append("\",\n\t\"userplugins_hash\": \"");
    s.append(st.userplugins_hash.as_str());
    s.append("\"\n}");
    proof {
        assert(s@ =~= build_doc(st.git_commit@, st.userplugins_hash@));
    }
    s
}

/// Whether the characters of `lit` stand at `start` in `s`.  Returns the
/// position after them exactly when they do.
pub(crate) fn match_lit(s: &str, start: usize, lit: &str) -> (r: Option<usize>)
    requires
        start <= s@.len(),
    ensures
        match r {
            Some(end) => end == start + lit@.len() && end <= s@.len() && s@.subrange(
                start as int,
                end as int,
            ) == lit@,
            None => !(start + lit@.len() <= s@.len() && s@.subrange(
                start as int,
                start + lit@.len(),
            ) == lit@),
        },
{
    let n = s.unicode_len();
    let m = lit.unicode_len();
    if n - start < m {
        return None;
    }
    let mut j: usize = 0;
    while j < m
        invariant
            j <= m,
            m == lit@.len(),
            n == s@.len(),
            start + m <= n,
            forall|t: int| 0 <= t < j ==> s@[start + t] == lit@[t],
        decreases m - j,
    {
        if s.get_char(start + j) != lit.get_char(j) {
            proof {
                assert(s@.subrange(start as int, start + m)[j as int] != lit@[j as int]);
            }
            return None;
        }
        j = j + 1;
    }
    proof {
        assert(s@.subrange(start as int, (start + m) as int) =~= lit@);
    }
    Some(start + m)
}

/// Scan from `start` for the next double quote.  Returns the text before it
/// and its position exactly when one exists.
fn scan_value(s: &str, start: usize) -> (r: Option<(String, usize)>)
    requires
        start <= s@.len(),
    ensures
        match r {
            Some(p) => start <= p.1 < s@.len() && s@[p.1 as int] == '"' && p.0@ == s@.subrange(
                start as int,
                p.1 as int,
            ) && quote_free(p.0@),
            None => forall|j: int| start <= j < s@.len() ==> s@[j] != '"',
        },
{
    let n = s.unicode_len();
    let mut j: usize = start;
    while j < n
        invariant
            start <= j <= n,
            n == s@.len(),
            forall|t: int| start <= t < j ==> s@[t] != '"',
        decreases n - j,
    {
        if s.get_char(j) == '"' {
            let v = s.substring_char(start, j);
            let owned = String::from_str(v);
            proof {
                assert(owned@ == s@.subrange(start as int, j as int));
                assert forall|i: int| 0 <= i < owned@.len() implies owned@[i] != '"' by {
                    assert(owned@[i] == s@[start + i]);
                }
            }
            return Some((owned, j));
        }
        j = j + 1;
    }
    None
}

/// A scan that stopped at the first quote after `start` stopped exactly
/// behind the quote-free text `v` that stands there, and read exactly `v`.
proof fn lemma_value_at(s: Seq<char>, start: int, v: Seq<char>, scanned: Seq<char>, e: int)
    requires
        quote_free(v),
        quote_free(scanned),
        0 <= start,
        start + v.len() < s.len(),
        forall|k: int| 0 <= k < v.len() ==> s[start + k] == v[k],
        s[start + v.len()] == '"',
        start <= e < s.len(),
        s[e] == '"',
        scanned == s.subrange(start, e),
    ensures
        e == start + v.len(),
        scanned == v,
{
    assert forall|j: int| start <= j < e implies s[j] != '"' by {
        assert(s[j] == scanned[j - start]);
    }
    if e < start + v.len() {
        assert(s[e] == v[e - start]);
    }
    assert(e == start + v.len());
    assert(scanned =~= v);
}

/// Where a long-form release document carries its first value and what
/// follows it.
proof fn lemma_rel_long1(
    s: Seq<char>,
    t: Seq<char>,
    n: Seq<char>,
    u: Seq<char>,
    tag: Seq<char>,
    e1: int,
)
    requires
        s == release_doc(t, n, u),
        quote_free(t),
        quote_free(n),
        quote_free(u),
        quote_free(tag),
        rel_open().len() <= e1 < s.len(),
        s[e1] == '"',
        tag == s.subrange(rel_open().len() as int, e1),
    ensures
        e1 == rel_open().len() + t.len(),
        tag == t,
        e1 + rel_name_sep().len() <= s.len(),
        s.subrange(e1, e1 + rel_name_sep().len()) == rel_name_sep(),
{
    reveal_strlit("{\n\t\"tag_name\": \"");
    reveal_strlit("\",\n\t\"name\": \"");
    reveal_strlit("\",\n\t\"updated_at\": \"");
    reveal_strlit("\"\n}");
    let b1 = rel_open().len() as int;
    assert(s[b1 + t.len()] == '"');
    lemma_value_at(s, b1, t, tag, e1);
    assert(s.subrange(e1, e1 + rel_name_sep().len()) =~= rel_name_sep());
}

/// Where a long-form release document carries its second value and what
/// follows it.
proof fn lemma_rel_long2(
    s: Seq<char>,
    t: Seq<char>,
    n: Seq<char>,
    u: Seq<char>,
    tag: Seq<char>,
    e1: int,
    nm: Seq<char>,
    e2: int,
)
    requires
        s == release_doc(t, n, u),
        quote_free(t),
        quote_free(n),
        quote_free(u),
        quote_free(tag),
        quote_free(nm),
        rel_open().len() <= e1 < s.len(),
        s[e1] == '"',
        tag == s.subrange(rel_open().len() as int, e1),
        e1 + rel_name_sep().len() <= e2 < s.len(),
        s[e2] == '"',
        nm == s.subrange(e1 + rel_name_sep().len(), e2),
    ensures
        e1 == rel_open().len() + t.len(),
        tag == t,
        e2 == e1 + rel_name_sep().len() + n.len(),
        nm == n,
        e2 + rel_updated_sep().len() <= s.len(),
        s.subrange(e2, e2 + rel_updated_sep().len()) == rel_updated_sep(),
{
    reveal_strlit("{\n\t\"tag_name\": \"");
    reveal_strlit("\",\n\t\"name\": \"");
    reveal_strlit("\",\n\t\"updated_at\": \"");
    reveal_strlit("\"\n}");
    lemma_rel_long1(s, t, n, u, tag, e1);
    let i2 = e1 + rel_name_sep().len() as int;
    assert(s[i2 + n.len()] == '"');
    lemma_value_at(s, i2, n, nm, e2);
    assert(s.subrange(e2, e2 + rel_updated_sep().len()) =~= rel_updated_sep());
}

/// Where a long-form release document carries its third value and its end.
proof fn lemma_rel_long3(
    s: Seq<char>,
    t: Seq<char>,
    n: Seq<char>,
    u: Seq<char>,
    tag: Seq<char>,
    e1: int,
    nm: Seq<char>,
    e2: int,
    up: Seq<char>,
    e3: int,
)
    requires
        s == release_doc(t, n, u),
        quote_free(t),
        quote_free(n),
        quote_free(u),
        quote_free(tag),
        quote_free(nm),
        quote_free(up),
        rel_open().len() <= e1 < s.len(),
        s[e1] == '"',
        tag == s.subrange(rel_open().len() as int, e1),
        e1 + rel_name_sep().len() <= e2 < s.len(),
        s[e2] == '"',
        nm == s.subrange(e1 + rel_name_sep().len(), e2),
        e2 + rel_updated_sep().len() <= e3 < s.len(),
        s[e3] == '"',
        up == s.subrange(e2 + rel_updated_sep().len(), e3),
    ensures
        e1 == rel_open().len() + t.len(),
        tag == t,
        e2 == e1 + rel_name_sep().len() + n.len(),
        nm == n,
        e3 == e2 + rel_updated_sep().len() + u.len(),
        up == u,
        s.len() == e3 + doc_close().len(),
        s.subrange(e3, e3 + doc_close().len()) == doc_close(),
{
    reveal_strlit("{\n\t\"tag_name\": \"");
    reveal_strlit("\",\n\t\"name\": \"");
    reveal_strlit("\",\n\t\"updated_at\": \"");
    reveal_strlit("\"\n}");
    lemma_rel_long2(s, t, n, u, tag, e1, nm, e2);
    let i3 = e2 + rel_updated_sep().len() as int;
    assert(s[i3 + u.len()] == '"');
    lemma_value_at(s, i3, u, up, e3);
    assert(s.subrange(e3, e3 + doc_close().len()) =~= doc_close());
}

/// Where a short-form release document carries its first value and what
/// follows it.
proof fn lemma_rel_short1(s: Seq<char>, t: Seq<char>, n: Seq<char>, tag: Seq<char>, e1: int)
    requires
        s == release_doc_short(t, n),
        quote_free(t),
        quote_free(n),
        quote_free(tag),
        rel_open().len() <= e1 < s.len(),
        s[e1] == '"',
        tag == s.subrange(rel_open().len() as int, e1),
    ensures
        e1 == rel_open().len() + t.len(),
        tag == t,
        e1 + rel_name_sep().len() <= s.len(),
        s.subrange(e1, e1 + rel_name_sep().len()) == rel_name_sep(),
{
    reveal_strlit("{\n\t\"tag_name\": \"");
    reveal_strlit("\",\n\t\"name\": \"");
    reveal_strlit("\"\n}");
    let b1 = rel_open().len() as int;
    assert(s[b1 + t.len()] == '"');
    lemma_value_at(s, b1, t, tag, e1);
    assert(s.subrange(e1, e1 + rel_name_sep().len()) =~= rel_name_sep());
}

/// Where a short-form release document carries its second value and its end.
proof fn lemma_rel_short2(
    s: Seq<char>,
    t: Seq<char>,
    n: Seq<char>,
    tag: Seq<char>,
    e1: int,
    nm: Seq<char>,
    e2: int,
)
    requires
        s == release_doc_short(t, n),
        quote_free(t),
        quote_free(n),
        quote_free(tag),
        quote_free(nm),
        rel_open().len() <= e1 < s.len(),
        s[e1] == '"',
        tag == s.subrange(rel_open().len() as int, e1),
        e1 + rel_name_sep().len() <= e2 < s.len(),
        s[e2] == '"',
        nm == s.subrange(e1 + rel_name_sep().len(), e2),
    ensures
        e1 == rel_open().len() + t.len(),
        tag == t,
        e2 == e1 + rel_name_sep().len() + n.len(),
        nm == n,
        s.len() == e2 + doc_close().len(),
        s.subrange(e2, e2 + doc_close().len()) == doc_close(),
{
    reveal_strlit("{\n\t\"tag_name\": \"");
    reveal_strlit("\",\n\t\"name\": \"");
    reveal_strlit("\"\n}");
    lemma_rel_short1(s, t, n, tag, e1);
    let i2 = e1 + rel_name_sep().len() as int;
    assert(s[i2 + n.len()] == '"');
    lemma_value_at(s, i2, n, nm, e2);
    assert(s.subrange(e2, e2 + doc_close().len()) =~= doc_close());
}

/// Parse a build document.  Succeeds exactly on the documents that

/// Parse a build document.  Succeeds exactly on the documents that
/// [`render_build`] writes for quote-free values, and then returns those
/// values.
#[verifier::rlimit(60)]
pub fn parse_build(s: &str) -> (r: Option<BuildState>)
    ensures
        match r {
            Some(st) => quote_free(st.git_commit@) && quote_free(st.userplugins_hash@) && s@
                == build_doc(st.git_commit@, st.userplugins_hash@),
            None => forall|c: Seq<char>, h: Seq<char>|
                quote_free(c) && quote_free(h) ==> s@ != build_doc(c, h),
        },
{
    let n = s.unicode_len();
    let ghost lit1 = "{\n\t\"git_commit\": \""@;
    let ghost lit2 = "\",\n\t\"userplugins_hash\": \""@;
    let ghost lit3 = "\"\n}"@;

    let i1 = match match_lit(s, 0, "{\n\t\"git_commit\": \"") {
        Some(i) => i,
        None => {
            proof {
                assert forall|c: Seq<char>, h: Seq<char>|
                    quote_free(c) && quote_free(h) implies s@ != build_doc(c, h) by {
                    if s@ == build_doc(c, h) {
                        assert(s@.subrange(0, lit1.len() as int) =~= lit1);
                    }
                }
            }
            return None;
        },
    };
    let (commit, e1) = match scan_value(s, i1) {
        Some(p) => p,
        None => {
            proof {
                assert forall|c: Seq<char>, h: Seq<char>|
                    quote_free(c) && quote_free(h) implies s@ != build_doc(c, h) by {
                    if s@ == build_doc(c, h) {
                        reveal_strlit("{\n\t\"git_commit\": \"");
                        reveal_strlit("\",\n\t\"userplugins_hash\": \"");
                        assert(s@[(lit1.len() + c.len()) as int] == '"');
                    }
                }
            }
            return None;
        },
    };
    let i2 = match match_lit(s, e1, "\",\n\t\"userplugins_hash\": \"") {
        Some(i) => i,
        None => {
            proof {
                assert forall|c: Seq<char>, h: Seq<char>|
                    quote_free(c) && quote_free(h) implies s@ != build_doc(c, h) by {
                    if s@ == build_doc(c, h) {
                        reveal_strlit("{\n\t\"git_commit\": \"");
                        reveal_strlit("\",\n\t\"userplugins_hash\": \"");
                        let q = (lit1.len() + c.len()) as int;
                        assert(s@[q] == '"');
                        if e1 < q {
                            assert(s@[e1 as int] == c[e1 - lit1.len()]);
                        }
                        if e1 > q {
                            assert(commit@[q - i1] == s@[q]);
                        }
                        assert(e1 == q);
                        assert(commit@ =~= c);
                        assert(s@.subrange(e1 as int, e1 + lit2.len()) =~= lit2);
                    }
                }
            }
            return None;
        },
    };
    let (hash, e2) = match scan_value(s, i2) {
        Some(p) => p,
        None => {
            proof {
                assert forall|c: Seq<char>, h: Seq<char>|
                    quote_free(c) && quote_free(h) implies s@ != build_doc(c, h) by {
                    if s@ == build_doc(c, h) {
                        reveal_strlit("{\n\t\"git_commit\": \"");
                        reveal_strlit("\",\n\t\"userplugins_hash\": \"");
                        reveal_strlit("\"\n}");
                        let q1 = (lit1.len() + c.len()) as int;
                        assert(s@[q1] == '"');
                        if e1 < q1 {
                            assert(s@[e1 as int] == c[e1 - lit1.len()]);
                        }
                        if e1 > q1 {
                            assert(commit@[q1 - i1] == s@[q1]);
                        }
                        assert(e1 == q1);
                        let q2 = (lit1.len() + c.len() + lit2.len() + h.len()) as int;
                        assert(q2 == i2 + h.len());
                        assert(s@[q2] == '"');
                    }
                }
            }
            return None;
        },
    };
    let i3 = match match_lit(s, e2, "\"\n}") {
        Some(i) => i,
        None => {
            proof {
                assert forall|c: Seq<char>, h: Seq<char>|
                    quote_free(c) && quote_free(h) implies s@ != build_doc(c, h) by {
                    if s@ == build_doc(c, h) {
                        reveal_strlit("{\n\t\"git_commit\": \"");
                        reveal_strlit("\",\n\t\"userplugins_hash\": \"");
                        reveal_strlit("\"\n}");
                        let q1 = (lit1.len() + c.len()) as int;
                        assert(s@[q1] == '"');
                        if e1 < q1 {
                            assert(s@[e1 as int] == c[e1 - lit1.len()]);
                        }
                        if e1 > q1 {
                            assert(commit@[q1 - i1] == s@[q1]);
                        }
                        assert(e1 == q1);
                        let q2 = (lit1.len() + c.len() + lit2.len() + h.len()) as int;
                        assert(s@[q2] == '"');
                        if e2 < q2 {
                            assert(s@[e2 as int] == h[e2 - i2]);
                        }
                        if e2 > q2 {
                            assert(hash@[q2 - i2] == s@[q2]);
                        }
                        assert(e2 == q2);
                        assert(s@.subrange(e2 as int, e2 + lit3.len()) =~= lit3);
                    }
                }
            }
            return None;
        },
    };
    if i3 != n {
        proof {
            assert forall|c: Seq<char>, h: Seq<char>|
                quote_free(c) && quote_free(h) implies s@ != build_doc(c, h) by {
                if s@ == build_doc(c, h) {
                    reveal_strlit("{\n\t\"git_commit\": \"");
                    reveal_strlit("\",\n\t\"userplugins_hash\": \"");
                    reveal_strlit("\"\n}");
                    let q1 = (lit1.len() + c.len()) as int;
                    assert(s@[q1] == '"');
                    if e1 < q1 {
                        assert(s@[e1 as int] == c[e1 - lit1.len()]);
                    }
                    if e1 > q1 {
                        assert(commit@[q1 - i1] == s@[q1]);
                    }
                    assert(e1 == q1);
                    let q2 = (lit1.len() + c.len() + lit2.len() + h.len()) as int;
                    assert(s@[q2] == '"');
                    if e2 < q2 {
                        assert(s@[e2 as int] == h[e2 - i2]);
                    }
                    if e2 > q2 {
                        assert(hash@[q2 - i2] == s@[q2]);
                    }
                    assert(e2 == q2);
                    assert(s@.len() == q2 + lit3.len());
                }
            }
        }
        return None;
    }
    proof {
        assert(s@ =~= lit1 + commit@ + lit2 + hash@ + lit3);
    }
    Some(BuildState { git_commit: commit, userplugins_hash: hash })
}

/// Whether `s` is a release document carrying exactly the values of `d`.
/// The short form, without the optional `updated_at` key, stands for an
/// empty timestamp.
pub open spec fn is_release_doc(s: Seq<char>, d: ReleaseDescriptorModel) -> bool {
    quote_free(d.tag_name) && quote_free(d.name) && quote_free(d.updated_at) && (s == release_doc(
        d.tag_name,
        d.name,
        d.updated_at,
    ) || (d.updated_at == Seq::<char>::empty() && s == release_doc_short(d.tag_name, d.name)))
}

/// Parse a release document.  Succeeds exactly on the documents that
/// [`render_release`] writes for quote-free values, plus the variant without
/// the optional `updated_at` key, whose timestamp defaults to empty.
#[verifier::rlimit(100)]
pub fn parse_release(s: &str) -> (r: Option<ReleaseDescriptor>)
    ensures
        match r {
            Some(d) => is_release_doc(s@, d@),
            None => (forall|t: Seq<char>, n: Seq<char>, u: Seq<char>|
                quote_free(t) && quote_free(n) && quote_free(u) ==> s@ != release_doc(t, n, u))
                && (forall|t: Seq<char>, n: Seq<char>|
                quote_free(t) && quote_free(n) ==> s@ != release_doc_short(t, n)),
        },
{
    let n_len = s.unicode_len();
    let i1 = match match_lit(s, 0, "{\n\t\"tag_name\": \"") {
        Some(i) => i,
        None => {
            proof {
                assert forall|t: Seq<char>, n: Seq<char>, u: Seq<char>|
                    quote_free(t) && quote_free(n) && quote_free(u) implies s@ != release_doc(
                    t,
                    n,
                    u,
                ) by {
                    if s@ == release_doc(t, n, u) {
                        assert(s@.subrange(0, rel_open().len() as int) =~= rel_open());
                    }
                }
                assert forall|t: Seq<char>, n: Seq<char>|
                    quote_free(t) && quote_free(n) implies s@ != release_doc_short(t, n) by {
                    if s@ == release_doc_short(t, n) {
                        assert(s@.subrange(0, rel_open().len() as int) =~= rel_open());
                    }
                }
            }
            return None;
        },
    };
    let (tag, e1) = match scan_value(s, i1) {
        Some(p) => p,
        None => {
            proof {
                reveal_strlit("\",\n\t\"name\": \"");
                assert forall|t: Seq<char>, n: Seq<char>, u: Seq<char>|
                    quote_free(t) && quote_free(n) && quote_free(u) implies s@ != release_doc(
                    t,
                    n,
                    u,
                ) by {
                    if s@ == release_doc(t, n, u) {
                        assert(s@[(rel_open().len() + t.len()) as int] == '"');
                    }
                }
                assert forall|t: Seq<char>, n: Seq<char>|
                    quote_free(t) && quote_free(n) implies s@ != release_doc_short(t, n) by {
                    if s@ == release_doc_short(t, n) {
                        assert(s@[(rel_open().len() + t.len()) as int] == '"');
                    }
                }
            }
            return None;
        },
    };
    let i2 = match match_lit(s, e1, "\",\n\t\"name\": \"") {
        Some(i) => i,
        None => {
            proof {
                assert forall|t: Seq<char>, n: Seq<char>, u: Seq<char>|
                    quote_free(t) && quote_free(n) && quote_free(u) implies s@ != release_doc(
                    t,
                    n,
                    u,
                ) by {
                    if s@ == release_doc(t, n, u) {
                        lemma_rel_long1(s@, t, n, u, tag@, e1 as int);
                    }
                }
                assert forall|t: Seq<char>, n: Seq<char>|
                    quote_free(t) && quote_free(n) implies s@ != release_doc_short(t, n) by {
                    if s@ == release_doc_short(t, n) {
                        lemma_rel_short1(s@, t, n, tag@, e1 as int);
                    }
                }
            }
            return None;
        },
    };
    let (nm, e2) = match scan_value(s, i2) {
        Some(p) => p,
        None => {
            proof {
                reveal_strlit("\",\n\t\"updated_at\": \"");
                reveal_strlit("\"\n}");
                assert forall|t: Seq<char>, n: Seq<char>, u: Seq<char>|
                    quote_free(t) && quote_free(n) && quote_free(u) implies s@ != release_doc(
                    t,
                    n,
                    u,
                ) by {
                    if s@ == release_doc(t, n, u) {
                        lemma_rel_long1(s@, t, n, u, tag@, e1 as int);
                        assert(s@[(e1 + rel_name_sep().len() + n.len()) as int] == '"');
                    }
                }
                assert forall|t: Seq<char>, n: Seq<char>|
                    quote_free(t) && quote_free(n) implies s@ != release_doc_short(t, n) by {
                    if s@ == release_doc_short(t, n) {
                        lemma_rel_short1(s@, t, n, tag@, e1 as int);
                        assert(s@[(e1 + rel_name_sep().len() + n.len()) as int] == '"');
                    }
                }
            }
            return None;
        },
    };
    match match_lit(s, e2, "\",\n\t\"updated_at\": \"") {
        Some(i3) => {
            let (up, e3) = match scan_value(s, i3) {
                Some(p) => p,
                None => {
                    proof {
                        reveal_strlit("\",\n\t\"updated_at\": \"");
                        reveal_strlit("\"\n}");
                        assert forall|t: Seq<char>, n: Seq<char>, u: Seq<char>|
                            quote_free(t) && quote_free(n) && quote_free(u) implies s@
                            != release_doc(t, n, u) by {
                            if s@ == release_doc(t, n, u) {
                                lemma_rel_long2(s@, t, n, u, tag@, e1 as int, nm@, e2 as int);
                                assert(s@[(e2 + rel_updated_sep().len() + u.len()) as int] == '"');
                            }
                        }
                        assert forall|t: Seq<char>, n: Seq<char>|
                            quote_free(t) && quote_free(n) implies s@ != release_doc_short(
                            t,
                            n,
                        ) by {
                            if s@ == release_doc_short(t, n) {
                                lemma_rel_short2(s@, t, n, tag@, e1 as int, nm@, e2 as int);
                            }
                        }
                    }
                    return None;
                },
            };
            let i4 = match match_lit(s, e3, "\"\n}") {
                Some(i) => i,
                None => {
                    proof {
                        reveal_strlit("\",\n\t\"updated_at\": \"");
                        reveal_strlit("\"\n}");
                        assert forall|t: Seq<char>, n: Seq<char>, u: Seq<char>|
                            quote_free(t) && quote_free(n) && quote_free(u) implies s@
                            != release_doc(t, n, u) by {
                            if s@ == release_doc(t, n, u) {
                                lemma_rel_long3(
                                    s@,
                                    t,
                                    n,
                                    u,
                                    tag@,
                                    e1 as int,
                                    nm@,
                                    e2 as int,
                                    up@,
                                    e3 as int,
                                );
                            }
                        }
                        assert forall|t: Seq<char>, n: Seq<char>|
                            quote_free(t) && quote_free(n) implies s@ != release_doc_short(
                            t,
                            n,
                        ) by {
                            if s@ == release_doc_short(t, n) {
                                lemma_rel_short2(s@, t, n, tag@, e1 as int, nm@, e2 as int);
                            }
                        }
                    }
                    return None;
                },
            };
            if i4 != n_len {
                proof {
                    reveal_strlit("\",\n\t\"updated_at\": \"");
                    reveal_strlit("\"\n}");
                    assert forall|t: Seq<char>, n: Seq<char>, u: Seq<char>|
                        quote_free(t) && quote_free(n) && quote_free(u) implies s@ != release_doc(
                        t,
                        n,
                        u,
                    ) by {
                        if s@ == release_doc(t, n, u) {
                            lemma_rel_long3(
                                s@,
                                t,
                                n,
                                u,
                                tag@,
                                e1 as int,
                                nm@,
                                e2 as int,
                                up@,
                                e3 as int,
                            );
                        }
                    }
                    assert forall|t: Seq<char>, n: Seq<char>|
                        quote_free(t) && quote_free(n) implies s@ != release_doc_short(t, n) by {
                        if s@ == release_doc_short(t, n) {
                            lemma_rel_short2(s@, t, n, tag@, e1 as int, nm@, e2 as int);
                        }
                    }
                }
                return None;
            }
            proof {
                assert(s@ =~= rel_open() + tag@ + rel_name_sep() + nm@ + rel_updated_sep() + up@
                    + doc_close());
            }
            Some(ReleaseDescriptor { tag_name: tag, name: nm, updated_at: up })
        },
        None => {
            let i3 = match match_lit(s, e2, "\"\n}") {
                Some(i) => i,
                None => {
                    proof {
                        reveal_strlit("\",\n\t\"updated_at\": \"");
                        reveal_strlit("\"\n}");
                        assert forall|t: Seq<char>, n: Seq<char>, u: Seq<char>|
                            quote_free(t) && quote_free(n) && quote_free(u) implies s@
                            != release_doc(t, n, u) by {
                            if s@ == release_doc(t, n, u) {
                                lemma_rel_long2(s@, t, n, u, tag@, e1 as int, nm@, e2 as int);
                            }
                        }
                        assert forall|t: Seq<char>, n: Seq<char>|
                            quote_free(t) && quote_free(n) implies s@ != release_doc_short(
                            t,
                            n,
                        ) by {
                            if s@ == release_doc_short(t, n) {
                                lemma_rel_short2(s@, t, n, tag@, e1 as int, nm@, e2 as int);
                            }
                        }
                    }
                    return None;
                },
            };
            if i3 != n_len {
                proof {
                    reveal_strlit("\",\n\t\"updated_at\": \"");
                    reveal_strlit("\"\n}");
                    assert forall|t: Seq<char>, n: Seq<char>, u: Seq<char>|
                        quote_free(t) && quote_free(n) && quote_free(u) implies s@ != release_doc(
                        t,
                        n,
                        u,
                    ) by {
                        if s@ == release_doc(t, n, u) {
                            lemma_rel_long2(s@, t, n, u, tag@, e1 as int, nm@, e2 as int);
                        }
                    }
                    assert forall|t: Seq<char>, n: Seq<char>|
                        quote_free(t) && quote_free(n) implies s@ != release_doc_short(t, n) by {
                        if s@ == release_doc_short(t, n) {
                            lemma_rel_short2(s@, t, n, tag@, e1 as int, nm@, e2 as int);
                        }
                    }
                }
                return None;
            }
            let up = String::new();
            proof {
                assert(s@ =~= rel_open() + tag@ + rel_name_sep() + nm@ + doc_close());
            }
            Some(ReleaseDescriptor { tag_name: tag, name: nm, updated_at: up })
        },
    }
}

/// A release document determines its three values: two renderings over
/// quote-free values coincide only when the values do, so the document
/// round-trips unambiguously.
pub proof fn lemma_release_doc_injective(
    t1: Seq<char>,
    n1: Seq<char>,
    u1: Seq<char>,
    t2: Seq<char>,
    n2: Seq<char>,
    u2: Seq<char>,
)
    requires
        quote_free(t1),
        quote_free(n1),
        quote_free(u1),
        quote_free(t2),
        quote_free(n2),
        quote_free(u2),
        release_doc(t1, n1, u1) == release_doc(t2, n2, u2),
    ensures
        t1 == t2,
        n1 == n2,
        u1 == u2,
{
    reveal_strlit("{\n\t\"tag_name\": \"");
    reveal_strlit("\",\n\t\"name\": \"");
    reveal_strlit("\",\n\t\"updated_at\": \"");
    reveal_strlit("\"\n}");
    let s = release_doc(t1, n1, u1);
    let b1 = rel_open().len() as int;
    let e1 = (rel_open().len() + t1.len()) as int;
    assert(s[e1] == '"');
    assert(t1 =~= s.subrange(b1, e1));
    lemma_value_at(s, b1, t2, t1, e1);
    let i2 = e1 + rel_name_sep().len() as int;
    let e2 = i2 + n1.len() as int;
    assert(s[e2] == '"');
    assert(n1 =~= s.subrange(i2, e2));
    lemma_value_at(s, i2, n2, n1, e2);
    let i3 = e2 + rel_updated_sep().len() as int;
    let e3 = i3 + u1.len() as int;
    assert(s[e3] == '"');
    assert(u1 =~= s.subrange(i3, e3));
    lemma_value_at(s, i3, u2, u1, e3);
}

/// A build document determines its two values in the same way.
pub proof fn lemma_build_doc_injective(
    c1: Seq<char>,
    h1: Seq<char>,
    c2: Seq<char>,
    h2: Seq<char>,
)
    requires
        quote_free(c1),
        quote_free(h1),
        quote_free(c2),
        quote_free(h2),
        build_doc(c1, h1) == build_doc(c2, h2),
    ensures
        c1 == c2,
        h1 == h2,
{
    reveal_strlit("{\n\t\"git_commit\": \"");
    reveal_strlit("\",\n\t\"userplugins_hash\": \"");
    reveal_strlit("\"\n}");
    let s = build_doc(c1, h1);
    let b1 = "{\n\t\"git_commit\": \""@.len() as int;
    let e1 = (("{\n\t\"git_commit\": \""@.len()) + c1.len()) as int;
    assert(s[e1] == '"');
    assert(c1 =~= s.subrange(b1, e1));
    lemma_value_at(s, b1, c2, c1, e1);
    let i2 = e1 + "\",\n\t\"userplugins_hash\": \""@.len() as int;
    let e2 = i2 + h1.len() as int;
    assert(s[e2] == '"');
    assert(h1 =~= s.subrange(i2, e2));
    lemma_value_at(s, i2, h2, h1, e2);
}

/// What the cached release document, if any, amounts to.
pub enum CachedRelease {
    /// No document on disk: first run, fetch unconditionally.
    NoCache,
    /// A well-formed document.
    Cache(ReleaseDescriptor),
    /// A document that does not parse.  For release metadata this is a hard
    /// error: continuing could silently re-download or silently skip, so
    /// the update check aborts and existing state stays untouched.
    Corrupt,
}

/// Interpret the cached release document.  `contents` is the document text,
/// or nothing where no document exists.
pub fn interpret_cached_release(contents: &Option<String>) -> (r: CachedRelease)
    ensures
        match contents {
            None => r is NoCache,
            Some(s) => {
                &&& r is Corrupt <==> !(exists|d: ReleaseDescriptorModel| is_release_doc(s@, d))
                &&& (r matches CachedRelease::Cache(d) ==> is_release_doc(s@, d@))
            },
        },
{
    match contents {
        None => CachedRelease::NoCache,
        Some(s) => match parse_release(s.as_str()) {
            Some(d) => {
                proof {
                    assert(is_release_doc(s@, d@));
                }
                CachedRelease::Cache(d)
            },
            None => {
                proof {
                    assert forall|d: ReleaseDescriptorModel| !is_release_doc(s@, d) by {}
                }
                CachedRelease::Corrupt
            },
        },
    }
}

/// Interpret the cached build document.  A missing or unreadable document
/// is tolerated: it simply forces a rebuild, so both map to nothing.
pub fn interpret_cached_build(contents: &Option<String>) -> (r: Option<BuildState>)
    ensures
        match contents {
            None => r is None,
            Some(s) => match r {
                Some(st) => quote_free(st.git_commit@) && quote_free(st.userplugins_hash@) && s@
                    == build_doc(st.git_commit@, st.userplugins_hash@),
                None => forall|c: Seq<char>, h: Seq<char>|
                    quote_free(c) && quote_free(h) ==> s@ != build_doc(c, h),
            },
        },
{
    match contents {
        None => None,
        Some(s) => parse_build(s.as_str()),
    }
}

} // verus!
