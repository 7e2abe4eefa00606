//! The session file codec.
//!
//! A session is stored as one JSON array of tab objects with a fixed key
//! order and no insignificant whitespace:
//! `[{"id":"...","label":"...","url":"...","title":...,"favicon":...,"loading":...},...]`
//! where the three optional fields are `null`, a string, or (`loading`)
//! `true`/`false`. Inside strings, `"` and `\` are escaped with a backslash
//! and every other character stands for itself; control characters (below
//! U+0020) are not representable, so a session containing one fails to
//! serialize rather than producing a malformed file.
//!
//! The encoding of a tab list is defined by the `enc_*` spec functions; the
//! accepted language of the decoder is defined by the `dec_*` spec
//! functions, and decoding an encoded session gives the session back
//! ([`lemma_session_round_trip`]).

use vstd::prelude::*;
use vstd::assert_seqs_equal;

use crate::ext::push_char;
use crate::session::{commit_all, lemma_commit_all_snoc, SessionError, SessionState, tab_upsert};
use crate::tab::{TabRecord, TabV};

verus! {

/// A string the session file can carry: no control characters.
pub open spec fn clean_str(s: Seq<char>) -> bool {
    forall|i: int| 0 <= i < s.len() ==> (#[trigger] s[i]) as u32 >= 32
}

pub open spec fn clean_opt(o: Option<Seq<char>>) -> bool {
    match o {
        Option::Some(t) => clean_str(t),
        Option::None => true,
    }
}

pub open spec fn clean_tab(t: TabV) -> bool {
    clean_str(t.id) && clean_str(t.label) && clean_str(t.url) && clean_opt(t.title) && clean_opt(
        t.favicon,
    )
}

pub open spec fn clean_tabs(ts: Seq<TabV>) -> bool {
    forall|i: int| 0 <= i < ts.len() ==> clean_tab(#[trigger] ts[i])
}

/// How one character appears inside a JSON string.
pub open spec fn esc_char(c: char) -> Seq<char> {
    if c == '"' {
        seq!['\\', '"']
    } else if c == '\\' {
        seq!['\\', '\\']
    } else {
        seq![c]
    }
}

pub open spec fn esc_str(s: Seq<char>) -> Seq<char>
    decreases s.len(),
{
    if s.len() == 0 {
        Seq::empty()
    } else {
        esc_char(s[0]) + esc_str(s.subrange(1, s.len() as int))
    }
}

pub open spec fn enc_str(s: Seq<char>) -> Seq<char> {
    seq!['"'] + esc_str(s) + seq!['"']
}

pub open spec fn enc_opt_str(o: Option<Seq<char>>) -> Seq<char> {
    match o {
        Option::Some(t) => enc_str(t),
        Option::None => "null"@,
    }
}

pub open spec fn enc_opt_bool(o: Option<bool>) -> Seq<char> {
    match o {
        Option::Some(true) => "true"@,
        Option::Some(false) => "false"@,
        Option::None => "null"@,
    }
}

pub open spec fn enc_tab(t: TabV) -> Seq<char> {
    "{\"id\":"@ + enc_str(t.id) + ",\"label\":"@ + enc_str(t.label) + ",\"url\":"@ + enc_str(t.url)
        + ",\"title\":"@ + enc_opt_str(t.title) + ",\"favicon\":"@ + enc_opt_str(t.favicon)
        + ",\"loading\":"@ + enc_opt_bool(t.loading) + "}"@
}

pub open spec fn enc_rest(ts: Seq<TabV>) -> Seq<char>
    decreases ts.len(),
{
    if ts.len() == 0 {
        Seq::empty()
    } else {
        seq![','] + enc_tab(ts[0]) + enc_rest(ts.subrange(1, ts.len() as int))
    }
}

pub open spec fn enc_items(ts: Seq<TabV>) -> Seq<char> {
    if ts.len() == 0 {
        Seq::empty()
    } else {
        enc_tab(ts[0]) + enc_rest(ts.subrange(1, ts.len() as int))
    }
}

/// The whole session file for a tab list.
pub open spec fn enc_session(ts: Seq<TabV>) -> Seq<char> {
    seq!['['] + enc_items(ts) + seq![']']
}

/// The views of a sequence of records.
pub open spec fn tab_views(s: Seq<TabRecord>) -> Seq<TabV> {
    s.map(|i: int, t: TabRecord| t@)
}

proof fn lemma_esc_snoc(s: Seq<char>, c: char)
    ensures
        esc_str(s.push(c)) == esc_str(s) + esc_char(c),
    decreases s.len(),
{
    let s2 = s.push(c);
    if s.len() == 0 {
        assert_seqs_equal!(s2.subrange(1, s2.len() as int), Seq::<char>::empty());
        assert(esc_str(Seq::<char>::empty()) == Seq::<char>::empty());
        assert(s2[0] == c);
        assert(esc_str(s2) == esc_char(c) + Seq::<char>::empty());
        assert_seqs_equal!(esc_char(c) + Seq::<char>::empty(), esc_char(c));
        assert_seqs_equal!(esc_str(s) + esc_char(c), esc_char(c));
    } else {
        assert_seqs_equal!(s2.subrange(1, s2.len() as int), s.subrange(1, s.len() as int).push(c));
        lemma_esc_snoc(s.subrange(1, s.len() as int), c);
        assert_seqs_equal!(esc_str(s2), esc_str(s) + esc_char(c));
    }
}

/// Appends `enc_str(s@)` to `out`.
fn push_json_string(out: &mut String, s: &str)
    requires
        clean_str(s@),
    ensures
        final(out)@ == old(out)@ + enc_str(s@),
{
    push_char(out, '"');
    let n = s.unicode_len();
    let mut i: usize = 0;
    while i < n
        invariant
            n == s@.len(),
            i <= n,
            clean_str(s@),
            out@ == old(out)@ + seq!['"'] + esc_str(s@.subrange(0, i as int)),
        decreases n - i,
    {
        let c = s.get_char(i);
        if c == '"' {
            push_char(out, '\\');
            push_char(out, '"');
        } else if c == '\\' {
            push_char(out, '\\');
            push_char(out, '\\');
        } else {
            push_char(out, c);
        }
        proof {
            lemma_esc_snoc(s@.subrange(0, i as int), c);
            assert_seqs_equal!(s@.subrange(0, i as int).push(c), s@.subrange(0, i as int + 1));
            assert_seqs_equal!(
                out@,
                old(out)@ + seq!['"'] + esc_str(s@.subrange(0, i as int + 1))
            );
        }
        i += 1;
    }
    push_char(out, '"');
    proof {
        assert_seqs_equal!(s@.subrange(0, s@.len() as int), s@);
        assert_seqs_equal!(out@, old(out)@ + enc_str(s@));
    }
}

/// Appends `enc_opt_str` of the field to `out`.
fn push_json_opt_string(out: &mut String, o: &Option<String>)
    requires
        clean_opt(match *o {
            Option::Some(t) => Option::Some(t@),
            Option::None => Option::None,
        }),
    ensures
        final(out)@ == old(out)@ + enc_opt_str(
            match *o {
                Option::Some(t) => Option::Some(t@),
                Option::None => Option::None,
            },
        ),
{
    match o {
        Option::Some(t) => push_json_string(out, t.as_str()),
        Option::None => out.append("null"),
    }
}

/// Appends `enc_opt_bool` of the field to `out`.
fn push_json_opt_bool(out: &mut String, o: &Option<bool>)
    ensures
        final(out)@ == old(out)@ + enc_opt_bool(*o),
{
    match o {
        Option::Some(true) => out.append("true"),
        Option::Some(false) => out.append("false"),
        Option::None => out.append("null"),
    }
}

/// Whether every character of `s` can appear in the session file.
fn str_clean(s: &str) -> (r: bool)
    ensures
        r == clean_str(s@),
{
    let n = s.unicode_len();
    let mut i: usize = 0;
    while i < n
        invariant
            n == s@.len(),
            i <= n,
            forall|j: int| 0 <= j < i ==> (#[trigger] s@[j]) as u32 >= 32,
        decreases n - i,
    {
        let c = s.get_char(i);
        if (c as u32) < 32 {
            return false;
        }
        i += 1;
    }
    true
}

fn opt_clean(o: &Option<String>) -> (r: bool)
    ensures
        r == clean_opt(match *o {
            Option::Some(t) => Option::Some(t@),
            Option::None => Option::None,
        }),
{
    match o {
        Option::Some(t) => str_clean(t.as_str()),
        Option::None => true,
    }
}

/// Whether a record can be written to the session file.
fn tab_clean(t: &TabRecord) -> (r: bool)
    ensures
        r == clean_tab(t@),
{
    str_clean(t.id.as_str()) && str_clean(t.label.as_str()) && str_clean(t.url.as_str())
        && opt_clean(&t.title) && opt_clean(&t.favicon)
}

/// Appends `enc_tab(t@)` to `out`.
fn push_json_tab(out: &mut String, t: &TabRecord)
    requires
        clean_tab(t@),
    ensures
        final(out)@ == old(out)@ + enc_tab(t@),
{
    out.append("{\"id\":");
    push_json_string(out, t.id.as_str());
    out.append(",\"label\":");
    push_json_string(out, t.label.as_str());
    out.append(",\"url\":");
    push_json_string(out, t.url.as_str());
    out.append(",\"title\":");
    push_json_opt_string(out, &t.title);
    out.append(",\"favicon\":");
    push_json_opt_string(out, &t.favicon);
    out.append(",\"loading\":");
    push_json_opt_bool(out, &t.loading);
    out.append("}");
    proof {
        assert_seqs_equal!(out@, old(out)@ + enc_tab(t@));
    }
}

proof fn lemma_enc_rest_snoc(ts: Seq<TabV>, t: TabV)
    ensures
        enc_rest(ts.push(t)) == enc_rest(ts) + seq![','] + enc_tab(t),
    decreases ts.len(),
{
    let ts2 = ts.push(t);
    if ts.len() == 0 {
        assert_seqs_equal!(ts2.subrange(1, ts2.len() as int), Seq::<TabV>::empty());
        assert(enc_rest(Seq::<TabV>::empty()) == Seq::<char>::empty());
        assert(ts2[0] == t);
        assert(enc_rest(ts2) == seq![','] + enc_tab(t) + Seq::<char>::empty());
        assert_seqs_equal!(enc_rest(ts2), enc_rest(ts) + seq![','] + enc_tab(t));
    } else {
        assert_seqs_equal!(
            ts2.subrange(1, ts2.len() as int),
            ts.subrange(1, ts.len() as int).push(t)
        );
        lemma_enc_rest_snoc(ts.subrange(1, ts.len() as int), t);
        assert(ts2[0] == ts[0]);
        assert(enc_rest(ts2) == seq![','] + enc_tab(ts[0]) + (enc_rest(
            ts.subrange(1, ts.len() as int),
        ) + seq![','] + enc_tab(t)));
        assert(enc_rest(ts) == seq![','] + enc_tab(ts[0]) + enc_rest(
            ts.subrange(1, ts.len() as int),
        ));
        assert_seqs_equal!(
            seq![','] + enc_tab(ts[0]) + (enc_rest(ts.subrange(1, ts.len() as int)) + seq![',']
                + enc_tab(t)),
            (seq![','] + enc_tab(ts[0]) + enc_rest(ts.subrange(1, ts.len() as int))) + seq![',']
                + enc_tab(t)
        );
        assert(enc_rest(ts2) == enc_rest(ts) + seq![','] + enc_tab(t));
    }
}

proof fn lemma_enc_items_snoc(ts: Seq<TabV>, t: TabV)
    ensures
        ts.len() == 0 ==> enc_items(ts.push(t)) == enc_tab(t),
        ts.len() > 0 ==> enc_items(ts.push(t)) == enc_items(ts) + seq![','] + enc_tab(t),
{
    let ts2 = ts.push(t);
    if ts.len() == 0 {
        assert_seqs_equal!(ts2.subrange(1, ts2.len() as int), Seq::<TabV>::empty());
        assert_seqs_equal!(enc_items(ts2), enc_tab(t));
    } else {
        assert_seqs_equal!(
            ts2.subrange(1, ts2.len() as int),
            ts.subrange(1, ts.len() as int).push(t)
        );
        lemma_enc_rest_snoc(ts.subrange(1, ts.len() as int), t);
        assert_seqs_equal!(enc_items(ts2), enc_items(ts) + seq![','] + enc_tab(t));
    }
}

/// Writes the session file for the given records: exactly
/// `enc_session` of their views. A record holding a control character
/// cannot be represented and fails with `SerializationError`.
pub fn encode_session(tabs: &Vec<TabRecord>) -> (r: Result<String, SessionError>)
    ensures
        r is Ok <==> clean_tabs(tab_views(tabs@)),
        r matches Ok(s) ==> s@ == enc_session(tab_views(tabs@)),
        r is Err ==> r == Err::<String, SessionError>(SessionError::SerializationError),
{
    let ghost ts = tab_views(tabs@);
    let mut i: usize = 0;
    while i < tabs.len()
        invariant
            ts == tab_views(tabs@),
            i <= tabs@.len(),
            forall|j: int| 0 <= j < i ==> clean_tab(#[trigger] ts[j]),
        decreases tabs@.len() - i,
    {
        if !tab_clean(&tabs[i]) {
            proof {
                assert(ts[i as int] == tabs@[i as int]@);
            }
            return Err(SessionError::SerializationError);
        }
        proof {
            assert(ts[i as int] == tabs@[i as int]@);
        }
        i += 1;
    }
    let mut out = String::from_str("[");
    proof {
        reveal_strlit("[");
        assert_seqs_equal!(out@, seq!['['] + enc_items(ts.subrange(0, 0)));
    }
    let mut k: usize = 0;
    while k < tabs.len()
        invariant
            ts == tab_views(tabs@),
            clean_tabs(ts),
            k <= tabs@.len(),
            out@ == seq!['['] + enc_items(ts.subrange(0, k as int)),
        decreases tabs@.len() - k,
    {
        if k > 0 {
            out.append(",");
        }
        push_json_tab(&mut out, &tabs[k]);
        proof {
            reveal_strlit(",");
            assert(ts[k as int] == tabs@[k as int]@);
            lemma_enc_items_snoc(ts.subrange(0, k as int), ts[k as int]);
            assert_seqs_equal!(
                ts.subrange(0, k as int).push(ts[k as int]),
                ts.subrange(0, k as int + 1)
            );
            assert_seqs_equal!(out@, seq!['['] + enc_items(ts.subrange(0, k as int + 1)));
        }
        k += 1;
    }
    out.append("]");
    proof {
        reveal_strlit("]");
        assert_seqs_equal!(ts.subrange(0, ts.len() as int), ts);
        assert_seqs_equal!(out@, enc_session(ts));
    }
    Ok(out)
}

/// The suffix of `s` from position `i`.
pub open spec fn suffix(s: Seq<char>, i: int) -> Seq<char> {
    s.subrange(i, s.len() as int)
}

/// Consumes `lit` from the front of `s`, or rejects.
pub open spec fn strip_lit(s: Seq<char>, lit: Seq<char>) -> Option<Seq<char>> {
    if lit.len() <= s.len() && s.subrange(0, lit.len() as int) == lit {
        Some(s.subrange(lit.len() as int, s.len() as int))
    } else {
        None
    }
}

/// Consumes the rest of a JSON string after its opening quote: `acc` plus
/// the unescaped characters up to the closing quote, and the remainder.
pub open spec fn dec_str_body(s: Seq<char>, acc: Seq<char>) -> Option<(Seq<char>, Seq<char>)>
    decreases s.len(),
{
    if s.len() == 0 {
        None
    } else if s[0] == '"' {
        Some((acc, s.subrange(1, s.len() as int)))
    } else if s[0] == '\\' {
        if s.len() >= 2 && (s[1] == '"' || s[1] == '\\') {
            dec_str_body(s.subrange(2, s.len() as int), acc.push(s[1]))
        } else {
            None
        }
    } else if (s[0] as u32) < 32 {
        None
    } else {
        dec_str_body(s.subrange(1, s.len() as int), acc.push(s[0]))
    }
}

/// Consumes one JSON string.
pub open spec fn dec_json_str(s: Seq<char>) -> Option<(Seq<char>, Seq<char>)> {
    if s.len() >= 1 && s[0] == '"' {
        dec_str_body(s.subrange(1, s.len() as int), Seq::empty())
    } else {
        None
    }
}

/// Consumes `null` or one JSON string.
pub open spec fn dec_opt_str(s: Seq<char>) -> Option<(Option<Seq<char>>, Seq<char>)> {
    match strip_lit(s, "null"@) {
        Some(r) => Some((None, r)),
        None => match dec_json_str(s) {
            Some((t, r)) => Some((Some(t), r)),
            None => None,
        },
    }
}

/// Consumes `null`, `true` or `false`.
pub open spec fn dec_opt_bool(s: Seq<char>) -> Option<(Option<bool>, Seq<char>)> {
    match strip_lit(s, "null"@) {
        Some(r) => Some((None, r)),
        None => match strip_lit(s, "true"@) {
            Some(r) => Some((Some(true), r)),
            None => match strip_lit(s, "false"@) {
                Some(r) => Some((Some(false), r)),
                None => None,
            },
        },
    }
}

/// Consumes one tab object with its fixed key order.
pub open spec fn dec_tab(s: Seq<char>) -> Option<(TabV, Seq<char>)> {
    match strip_lit(s, "{\"id\":"@) {
        Some(r1) => match dec_json_str(r1) {
            Some((id, r2)) => match strip_lit(r2, ",\"label\":"@) {
                Some(r3) => match dec_json_str(r3) {
                    Some((label, r4)) => match strip_lit(r4, ",\"url\":"@) {
                        Some(r5) => match dec_json_str(r5) {
                            Some((url, r6)) => match strip_lit(r6, ",\"title\":"@) {
                                Some(r7) => match dec_opt_str(r7) {
                                    Some((title, r8)) => match strip_lit(r8, ",\"favicon\":"@) {
                                        Some(r9) => match dec_opt_str(r9) {
                                            Some((favicon, r10)) => match strip_lit(
                                                r10,
                                                ",\"loading\":"@,
                                            ) {
                                                Some(r11) => match dec_opt_bool(r11) {
                                                    Some((loading, r12)) => match strip_lit(
                                                        r12,
                                                        "}"@,
                                                    ) {
                                                        Some(r13) => Some(
                                                            (
                                                                TabV {
                                                                    id,
                                                                    label,
                                                                    url,
                                                                    title,
                                                                    favicon,
                                                                    loading,
                                                                },
                                                                r13,
                                                            ),
                                                        ),
                                                        None => None,
                                                    },
                                                    None => None,
                                                },
                                                None => None,
                                            },
                                            None => None,
                                        },
                                        None => None,
                                    },
                                    None => None,
                                },
                                None => None,
                            },
                            None => None,
                        },
                        None => None,
                    },
                    None => None,
                },
                None => None,
            },
            None => None,
        },
        None => None,
    }
}

/// Consumes the comma-separated tab objects of a non-empty array together
/// with the closing bracket.
pub open spec fn dec_items(s: Seq<char>) -> Option<(Seq<TabV>, Seq<char>)>
    decreases s.len(),
{
    match dec_tab(s) {
        Some((t, r)) => {
            if r.len() >= 1 && r[0] == ']' {
                Some((seq![t], r.subrange(1, r.len() as int)))
            } else if r.len() >= 1 && r[0] == ',' && r.len() <= s.len() {
                match dec_items(r.subrange(1, r.len() as int)) {
                    Some((ts, rem)) => Some((seq![t] + ts, rem)),
                    None => None,
                }
            } else {
                None
            }
        },
        None => None,
    }
}

/// The tab lists the decoder accepts: exactly the encoder's outputs.
pub open spec fn dec_session(s: Seq<char>) -> Option<Seq<TabV>> {
    if s.len() >= 1 && s[0] == '[' {
        let r = s.subrange(1, s.len() as int);
        if r.len() == 1 && r[0] == ']' {
            Some(Seq::empty())
        } else {
            match dec_items(r) {
                Some((ts, rem)) => if rem.len() == 0 {
                    Some(ts)
                } else {
                    None
                },
                None => None,
            }
        }
    } else {
        None
    }
}

/// Consumes `lit@` at position `i` of `s`, as `strip_lit` does on the
/// suffix.
fn eat_lit(s: &str, i: usize, lit: &str) -> (r: Option<usize>)
    requires
        i <= s@.len(),
    ensures
        r is Some <==> strip_lit(suffix(s@, i as int), lit@) is Some,
        r matches Some(j) ==> i <= j <= s@.len() && strip_lit(suffix(s@, i as int), lit@) == Some(
            suffix(s@, j as int),
        ),
{
    let n = s.unicode_len();
    let m = lit.unicode_len();
    if m > n - i {
        return None;
    }
    let mut k: usize = 0;
    while k < m
        invariant
            n == s@.len(),
            m == lit@.len(),
            i + m <= n,
            k <= m,
            forall|j2: int| 0 <= j2 < k ==> s@[i + j2] == lit@[j2],
        decreases m - k,
    {
        if s.get_char(i + k) != lit.get_char(k) {
            proof {
                assert(suffix(s@, i as int)[k as int] != lit@[k as int]);
                assert(strip_lit(suffix(s@, i as int), lit@) is None) by {
                    if lit@.len() <= suffix(s@, i as int).len() && suffix(s@, i as int).subrange(
                        0,
                        lit@.len() as int,
                    ) == lit@ {
                        assert(suffix(s@, i as int).subrange(0, lit@.len() as int)[k as int]
                            == lit@[k as int]);
                    }
                }
            }
            return None;
        }
        k += 1;
    }
    proof {
        assert_seqs_equal!(suffix(s@, i as int).subrange(0, lit@.len() as int), lit@);
        assert_seqs_equal!(
            suffix(s@, i as int).subrange(lit@.len() as int, suffix(s@, i as int).len() as int),
            suffix(s@, (i + m) as int)
        );
    }
    Some(i + m)
}

/// Consumes one JSON string at position `i`, as `dec_json_str` does on the
/// suffix.
fn parse_json_str(s: &str, i: usize) -> (r: Option<(String, usize)>)
    requires
        i <= s@.len(),
    ensures
        r is Some <==> dec_json_str(suffix(s@, i as int)) is Some,
        r matches Some((t, j)) ==> i <= j <= s@.len() && dec_json_str(suffix(s@, i as int)) == Some(
            (t@, suffix(s@, j as int)),
        ),
{
    let n = s.unicode_len();
    if i >= n {
        return None;
    }
    if s.get_char(i) != '"' {
        return None;
    }
    proof {
        assert_seqs_equal!(
            suffix(s@, i as int).subrange(1, suffix(s@, i as int).len() as int),
            suffix(s@, i as int + 1)
        );
    }
    let mut out = String::new();
    let mut j: usize = i + 1;
    loop
        invariant
            n == s@.len(),
            i + 1 <= j <= n,
            dec_json_str(suffix(s@, i as int)) == dec_str_body(suffix(s@, j as int), out@),
        decreases n - j,
    {
        if j >= n {
            return None;
        }
        let c = s.get_char(j);
        proof {
            assert(suffix(s@, j as int)[0] == c);
        }
        if c == '"' {
            proof {
                assert_seqs_equal!(
                    suffix(s@, j as int).subrange(1, suffix(s@, j as int).len() as int),
                    suffix(s@, j as int + 1)
                );
            }
            return Some((out, j + 1));
        } else if c == '\\' {
            if j + 1 < n {
                let c2 = s.get_char(j + 1);
                if c2 == '"' || c2 == '\\' {
                    proof {
                        assert(suffix(s@, j as int)[1] == c2);
                        assert_seqs_equal!(
                            suffix(s@, j as int).subrange(2, suffix(s@, j as int).len() as int),
                            suffix(s@, j as int + 2)
                        );
                    }
                    crate::ext::push_char(&mut out, c2);
                    j += 2;
                } else {
                    return None;
                }
            } else {
                return None;
            }
        } else if (c as u32) < 32 {
            return None;
        } else {
            proof {
                assert_seqs_equal!(
                    suffix(s@, j as int).subrange(1, suffix(s@, j as int).len() as int),
                    suffix(s@, j as int + 1)
                );
            }
            crate::ext::push_char(&mut out, c);
            j += 1;
        }
    }
}

/// Consumes `null` or one JSON string at position `i`.
fn parse_opt_str(s: &str, i: usize) -> (r: Option<(Option<String>, usize)>)
    requires
        i <= s@.len(),
    ensures
        r is Some <==> dec_opt_str(suffix(s@, i as int)) is Some,
        r matches Some((t, j)) ==> i <= j <= s@.len() && dec_opt_str(suffix(s@, i as int)) == Some(
            (
                match t {
                    Option::Some(u) => Option::Some(u@),
                    Option::None => Option::None,
                },
                suffix(s@, j as int),
            ),
        ),
{
    match eat_lit(s, i, "null") {
        Some(j) => Some((None, j)),
        None => match parse_json_str(s, i) {
            Some((t, j)) => Some((Some(t), j)),
            None => None,
        },
    }
}

/// Consumes `null`, `true` or `false` at position `i`.
fn parse_opt_bool(s: &str, i: usize) -> (r: Option<(Option<bool>, usize)>)
    requires
        i <= s@.len(),
    ensures
        r is Some <==> dec_opt_bool(suffix(s@, i as int)) is Some,
        r matches Some((b, j)) ==> i <= j <= s@.len() && dec_opt_bool(suffix(s@, i as int)) == Some(
            (b, suffix(s@, j as int)),
        ),
{
    match eat_lit(s, i, "null") {
        Some(j) => Some((None, j)),
        None => match eat_lit(s, i, "true") {
            Some(j) => Some((Some(true), j)),
            None => match eat_lit(s, i, "false") {
                Some(j) => Some((Some(false), j)),
                None => None,
            },
        },
    }
}

/// Consumes one tab object at position `i`, as `dec_tab` does on the
/// suffix.
#[verifier::rlimit(100)]
fn parse_tab(s: &str, i: usize) -> (r: Option<(TabRecord, usize)>)
    requires
        i <= s@.len(),
    ensures
        r is Some <==> dec_tab(suffix(s@, i as int)) is Some,
        r matches Some((t, j)) ==> i <= j <= s@.len() && dec_tab(suffix(s@, i as int)) == Some(
            (t@, suffix(s@, j as int)),
        ),
{
    let j1 = match eat_lit(s, i, "{\"id\":") {
        Some(j) => j,
        None => {
            return None;
        },
    };
    let (id, j2) = match parse_json_str(s, j1) {
        Some(x) => x,
        None => {
            return None;
        },
    };
    let j3 = match eat_lit(s, j2, ",\"label\":") {
        Some(j) => j,
        None => {
            return None;
        },
    };
    let (label, j4) = match parse_json_str(s, j3) {
        Some(x) => x,
        None => {
            return None;
        },
    };
    let j5 = match eat_lit(s, j4, ",\"url\":") {
        Some(j) => j,
        None => {
            return None;
        },
    };
    let (url, j6) = match parse_json_str(s, j5) {
        Some(x) => x,
        None => {
            return None;
        },
    };
    let j7 = match eat_lit(s, j6, ",\"title\":") {
        Some(j) => j,
        None => {
            return None;
        },
    };
    let (title, j8) = match parse_opt_str(s, j7) {
        Some(x) => x,
        None => {
            return None;
        },
    };
    let j9 = match eat_lit(s, j8, ",\"favicon\":") {
        Some(j) => j,
        None => {
            return None;
        },
    };
    let (favicon, j10) = match parse_opt_str(s, j9) {
        Some(x) => x,
        None => {
            return None;
        },
    };
    let j11 = match eat_lit(s, j10, ",\"loading\":") {
        Some(j) => j,
        None => {
            return None;
        },
    };
    let (loading, j12) = match parse_opt_bool(s, j11) {
        Some(x) => x,
        None => {
            return None;
        },
    };
    let j13 = match eat_lit(s, j12, "}") {
        Some(j) => j,
        None => {
            return None;
        },
    };
    Some((TabRecord { id, label, url, title, favicon, loading }, j13))
}

/// Consumes the records of a non-empty array at position `i` together with
/// the closing bracket, as `dec_items` does on the suffix.
fn parse_items(s: &str, i: usize) -> (r: Option<(Vec<TabRecord>, usize)>)
    requires
        i <= s@.len(),
    ensures
        r is Some <==> dec_items(suffix(s@, i as int)) is Some,
        r matches Some((v, j)) ==> i <= j <= s@.len() && dec_items(suffix(s@, i as int)) == Some(
            (tab_views(v@), suffix(s@, j as int)),
        ),
    decreases s@.len() - i,
{
    let n = s.unicode_len();
    match parse_tab(s, i) {
        None => None,
        Some((t, j)) => {
            if j < n {
                let c = s.get_char(j);
                proof {
                    assert(suffix(s@, j as int)[0] == c);
                    assert(suffix(s@, j as int).len() >= 1);
                }
                if c == ']' {
                    let mut v: Vec<TabRecord> = Vec::new();
                    v.push(t);
                    proof {
                        assert_seqs_equal!(tab_views(v@), seq![v@[0]@]);
                        assert_seqs_equal!(
                            suffix(s@, j as int).subrange(1, suffix(s@, j as int).len() as int),
                            suffix(s@, j as int + 1)
                        );
                    }
                    Some((v, j + 1))
                } else if c == ',' {
                    proof {
                        assert_seqs_equal!(
                            suffix(s@, j as int).subrange(1, suffix(s@, j as int).len() as int),
                            suffix(s@, j as int + 1)
                        );
                    }
                    match parse_items(s, j + 1) {
                        Some((v2, k)) => {
                            let ghost v2v = v2@;
                            let mut v: Vec<TabRecord> = Vec::new();
                            v.push(t);
                            let mut v2m = v2;
                            v.append(&mut v2m);
                            proof {
                                assert_seqs_equal!(
                                    tab_views(v@),
                                    seq![v@[0]@] + tab_views(v2v)
                                );
                            }
                            Some((v, k))
                        },
                        None => None,
                    }
                } else {
                    None
                }
            } else {
                None
            }
        },
    }
}

/// Reads a session file back. Exactly the files `encode_session` writes are
/// accepted — the accepted language is `dec_session` — and anything else
/// fails with `DeserializationError`.
pub fn decode_session(s: &str) -> (r: Result<Vec<TabRecord>, SessionError>)
    ensures
        r is Ok <==> dec_session(s@) is Some,
        r matches Ok(v) ==> dec_session(s@) == Some(tab_views(v@)),
        r is Err ==> r == Err::<Vec<TabRecord>, SessionError>(SessionError::DeserializationError),
{
    let n = s.unicode_len();
    if n == 0 {
        return Err(SessionError::DeserializationError);
    }
    if s.get_char(0) != '[' {
        return Err(SessionError::DeserializationError);
    }
    proof {
        assert_seqs_equal!(s@.subrange(1, s@.len() as int), suffix(s@, 1));
    }
    if n == 2 && s.get_char(1) == ']' {
        let v: Vec<TabRecord> = Vec::new();
        proof {
            assert(suffix(s@, 1).len() == 1);
            assert(suffix(s@, 1)[0] == ']');
            assert_seqs_equal!(tab_views(v@), Seq::<TabV>::empty());
        }
        return Ok(v);
    }
    proof {
        if suffix(s@, 1).len() == 1 && suffix(s@, 1)[0] == ']' {
            assert(n == 2 && s@[1] == ']');
        }
    }
    match parse_items(s, 1) {
        Some((v, j)) => {
            if j == n {
                Ok(v)
            } else {
                Err(SessionError::DeserializationError)
            }
        },
        None => Err(SessionError::DeserializationError),
    }
}

proof fn lemma_strip_lit_of(lit: Seq<char>, r: Seq<char>)
    ensures
        strip_lit(lit + r, lit) == Some(r),
{
    assert_seqs_equal!((lit + r).subrange(0, lit.len() as int), lit);
    assert_seqs_equal!((lit + r).subrange(lit.len() as int, (lit + r).len() as int), r);
}

proof fn lemma_dec_str_body_of(t: Seq<char>, acc: Seq<char>, r: Seq<char>)
    requires
        clean_str(t),
    ensures
        dec_str_body(esc_str(t) + seq!['"'] + r, acc) == Some((acc + t, r)),
    decreases t.len(),
{
    let s = esc_str(t) + seq!['"'] + r;
    if t.len() == 0 {
        assert(esc_str(t) == Seq::<char>::empty());
        assert_seqs_equal!(s, seq!['"'] + r);
        assert(s[0] == '"');
        assert_seqs_equal!(s.subrange(1, s.len() as int), r);
        assert_seqs_equal!(acc + t, acc);
    } else {
        let c = t[0];
        let t1 = t.subrange(1, t.len() as int);
        assert(esc_str(t) == esc_char(c) + esc_str(t1));
        assert(c as u32 >= 32);
        assert forall|i: int| 0 <= i < t1.len() implies (#[trigger] t1[i]) as u32 >= 32 by {
            assert(t1[i] == t[i + 1]);
        }
        lemma_dec_str_body_of(t1, acc.push(c), r);
        assert_seqs_equal!(acc.push(c) + t1, acc + t);
        if c == '"' || c == '\\' {
            assert(esc_char(c) == seq!['\\', c]);
            assert_seqs_equal!(s, seq!['\\', c] + (esc_str(t1) + seq!['"'] + r));
            assert(s[0] == '\\');
            assert(s[1] == c);
            assert(s.len() >= 2);
            assert_seqs_equal!(s.subrange(2, s.len() as int), esc_str(t1) + seq!['"'] + r);
            assert(dec_str_body(s, acc) == dec_str_body(
                esc_str(t1) + seq!['"'] + r,
                acc.push(c),
            ));
        } else {
            assert(esc_char(c) == seq![c]);
            assert_seqs_equal!(s, seq![c] + (esc_str(t1) + seq!['"'] + r));
            assert(s[0] == c);
            assert_seqs_equal!(s.subrange(1, s.len() as int), esc_str(t1) + seq!['"'] + r);
            assert(dec_str_body(s, acc) == dec_str_body(
                esc_str(t1) + seq!['"'] + r,
                acc.push(c),
            ));
        }
    }
}

proof fn lemma_dec_json_str_of(t: Seq<char>, r: Seq<char>)
    requires
        clean_str(t),
    ensures
        dec_json_str(enc_str(t) + r) == Some((t, r)),
        (enc_str(t) + r).len() > r.len(),
        (enc_str(t) + r)[0] == '"',
{
    let s = enc_str(t) + r;
    assert(s[0] == '"');
    assert_seqs_equal!(s.subrange(1, s.len() as int), esc_str(t) + seq!['"'] + r);
    lemma_dec_str_body_of(t, Seq::empty(), r);
    assert_seqs_equal!(Seq::<char>::empty() + t, t);
}

proof fn lemma_dec_opt_str_of(o: Option<Seq<char>>, r: Seq<char>)
    requires
        clean_opt(o),
    ensures
        dec_opt_str(enc_opt_str(o) + r) == Some((o, r)),
    decreases r.len(),
{
    reveal_strlit("null");
    let s = enc_opt_str(o) + r;
    match o {
        Option::None => {
            lemma_strip_lit_of("null"@, r);
        },
        Option::Some(t) => {
            lemma_dec_json_str_of(t, r);
            assert(s[0] == '"');
            if strip_lit(s, "null"@) is Some {
                assert(s.subrange(0, 4)[0] == 'n');
                assert(false);
            }
        },
    }
}

proof fn lemma_dec_opt_bool_of(o: Option<bool>, r: Seq<char>)
    ensures
        dec_opt_bool(enc_opt_bool(o) + r) == Some((o, r)),
{
    reveal_strlit("null");
    reveal_strlit("true");
    reveal_strlit("false");
    let s = enc_opt_bool(o) + r;
    match o {
        Option::None => {
            lemma_strip_lit_of("null"@, r);
        },
        Option::Some(true) => {
            lemma_strip_lit_of("true"@, r);
            assert(s[0] == 't');
            if strip_lit(s, "null"@) is Some {
                assert(s.subrange(0, 4)[0] == 'n');
                assert(false);
            }
        },
        Option::Some(false) => {
            lemma_strip_lit_of("false"@, r);
            assert(s[0] == 'f');
            if strip_lit(s, "null"@) is Some {
                assert(s.subrange(0, 4)[0] == 'n');
                assert(false);
            }
            if strip_lit(s, "true"@) is Some {
                assert(s.subrange(0, 4)[0] == 't');
                assert(false);
            }
        },
    }
}

proof fn lemma_enc_tab_len(t: TabV)
    ensures
        enc_tab(t).len() > 0,
        enc_tab(t)[0] == '{',
{
    reveal_strlit("{\"id\":");
}

#[verifier::rlimit(100)]
proof fn lemma_dec_tab_of(t: TabV, r: Seq<char>)
    requires
        clean_tab(t),
    ensures
        dec_tab(enc_tab(t) + r) == Some((t, r)),
{
    let y12 = "}"@ + r;
    let y11 = enc_opt_bool(t.loading) + y12;
    let y10 = ",\"loading\":"@ + y11;
    let y9 = enc_opt_str(t.favicon) + y10;
    let y8 = ",\"favicon\":"@ + y9;
    let y7 = enc_opt_str(t.title) + y8;
    let y6 = ",\"title\":"@ + y7;
    let y5 = enc_str(t.url) + y6;
    let y4 = ",\"url\":"@ + y5;
    let y3 = enc_str(t.label) + y4;
    let y2 = ",\"label\":"@ + y3;
    let y1 = enc_str(t.id) + y2;
    let s = enc_tab(t) + r;
    assert_seqs_equal!(s, "{\"id\":"@ + y1);
    lemma_strip_lit_of("{\"id\":"@, y1);
    lemma_dec_json_str_of(t.id, y2);
    lemma_strip_lit_of(",\"label\":"@, y3);
    lemma_dec_json_str_of(t.label, y4);
    lemma_strip_lit_of(",\"url\":"@, y5);
    lemma_dec_json_str_of(t.url, y6);
    lemma_strip_lit_of(",\"title\":"@, y7);
    lemma_dec_opt_str_of(t.title, y8);
    lemma_strip_lit_of(",\"favicon\":"@, y9);
    lemma_dec_opt_str_of(t.favicon, y10);
    lemma_strip_lit_of(",\"loading\":"@, y11);
    lemma_dec_opt_bool_of(t.loading, y12);
    lemma_strip_lit_of("}"@, r);
}

#[verifier::rlimit(100)]
proof fn lemma_dec_items_of(ts: Seq<TabV>, r: Seq<char>)
    requires
        clean_tabs(ts),
        ts.len() > 0,
    ensures
        dec_items(enc_items(ts) + seq![']'] + r) == Some((ts, r)),
    decreases ts.len(),
{
    let s = enc_items(ts) + seq![']'] + r;
    let t0 = ts[0];
    let ts1 = ts.subrange(1, ts.len() as int);
    assert(clean_tab(t0));
    assert forall|i: int| 0 <= i < ts1.len() implies clean_tab(#[trigger] ts1[i]) by {
        assert(ts1[i] == ts[i + 1]);
    }
    if ts.len() == 1 {
        assert(enc_rest(ts1) == Seq::<char>::empty());
        assert_seqs_equal!(s, enc_tab(t0) + (seq![']'] + r));
        lemma_dec_tab_of(t0, seq![']'] + r);
        let rem = seq![']'] + r;
        assert(rem[0] == ']');
        assert_seqs_equal!(rem.subrange(1, rem.len() as int), r);
        assert_seqs_equal!(seq![t0], ts);
    } else {
        let rem = enc_rest(ts1) + seq![']'] + r;
        assert_seqs_equal!(s, enc_tab(t0) + rem);
        lemma_dec_tab_of(t0, rem);
        assert(enc_rest(ts1) == seq![','] + enc_tab(ts1[0]) + enc_rest(
            ts1.subrange(1, ts1.len() as int),
        ));
        assert(rem[0] == ',');
        assert(rem.len() >= 1);
        assert(rem.len() <= s.len());
        lemma_dec_items_of(ts1, r);
        assert(enc_items(ts1) == enc_tab(ts1[0]) + enc_rest(ts1.subrange(1, ts1.len() as int)));
        assert_seqs_equal!(rem.subrange(1, rem.len() as int), enc_items(ts1) + seq![']'] + r);
        assert_seqs_equal!(seq![t0] + ts1, ts);
    }
}

impl SessionState {
    /// The session file content for the current tabs, ready to be written
    /// out (to a temporary file first, then renamed over the old one, so a
    /// crash mid-write cannot corrupt a previously valid session).
    pub fn persist(&self) -> (r: Result<String, SessionError>)
        ensures
            r is Ok <==> clean_tabs(tab_views(self.tabs@)),
            r matches Ok(s) ==> s@ == enc_session(tab_views(self.tabs@)),
            r is Err ==> r == Err::<String, SessionError>(SessionError::SerializationError),
    {
        encode_session(&self.tabs)
    }

    /// Rebuilds the tab registry from the session file content, `None`
    /// standing for a missing file — a valid empty session, not an error.
    /// Each stored record is committed with its identifier and surface
    /// label preserved, so the on-disk labels keep matching the recreated
    /// surfaces; the caller recreates one renderer surface per returned
    /// record. A malformed file fails with `DeserializationError` and
    /// leaves the store untouched: the session starts empty rather than
    /// partially restored.
    pub fn restore(&mut self, data: Option<&str>) -> (r: Result<Vec<TabRecord>, SessionError>)
        requires
            old(self).wf(),
        ensures
            final(self).wf(),
            final(self).permissions == old(self).permissions,
            final(self).downloads == old(self).downloads,
            data is None ==> (r matches Ok(v) && v@.len() == 0 && *final(self) == *old(self)),
            data matches Some(d) ==> match dec_session(d@) {
                Some(tvs) => r matches Ok(v) && tab_views(v@) == tvs && final(self).tabs@
                    == commit_all(old(self).tabs@, v@),
                None => r == Err::<Vec<TabRecord>, SessionError>(
                    SessionError::DeserializationError,
                ) && *final(self) == *old(self),
            },
    {
        let d = match data {
            Some(d) => d,
            None => {
                return Ok(Vec::new());
            },
        };
        let v = match decode_session(d) {
            Ok(v) => v,
            Err(e) => {
                return Err(e);
            },
        };
        let ghost v0 = v@;
        let mut i: usize = 0;
        while i < v.len()
            invariant
                self.wf(),
                v@ == v0,
                i <= v0.len(),
                self.permissions == old(self).permissions,
                self.downloads == old(self).downloads,
                self.tabs@ == commit_all(old(self).tabs@, v0.subrange(0, i as int)),
            decreases v0.len() - i,
        {
            let rec = v[i].clone();
            proof {
                assert(rec == v0[i as int]);
            }
            self.commit_tab(rec);
            proof {
                assert(self.tabs@ == tab_upsert(
                    commit_all(old(self).tabs@, v0.subrange(0, i as int)),
                    v0[i as int],
                ));
                lemma_commit_all_snoc(old(self).tabs@, v0.subrange(0, i as int), v0[i as int]);
                assert_seqs_equal!(
                    v0.subrange(0, i as int).push(v0[i as int]),
                    v0.subrange(0, i as int + 1)
                );
            }
            i += 1;
        }
        proof {
            assert_seqs_equal!(v0.subrange(0, v0.len() as int), v0);
        }
        Ok(v)
    }
}

/// Law: the session codec round-trips. Whatever list of tab snapshots the
/// encoder can write, the decoder reads back unchanged — persisting a
/// session and restoring it yields the same tabs, and an empty session
/// round-trips to an empty session.
pub proof fn lemma_session_round_trip(ts: Seq<TabV>)
    requires
        clean_tabs(ts),
    ensures
        dec_session(enc_session(ts)) == Some(ts),
{
    let s = enc_session(ts);
    assert(s[0] == '[');
    let r = s.subrange(1, s.len() as int);
    if ts.len() == 0 {
        assert(enc_items(ts) == Seq::<char>::empty());
        assert_seqs_equal!(r, seq![']']);
        assert(r.len() == 1 && r[0] == ']');
        assert_seqs_equal!(Seq::<TabV>::empty(), ts);
    } else {
        lemma_enc_tab_len(ts[0]);
        assert(enc_items(ts) == enc_tab(ts[0]) + enc_rest(ts.subrange(1, ts.len() as int)));
        assert(enc_items(ts).len() > 0);
        assert_seqs_equal!(r, enc_items(ts) + seq![']'] + Seq::<char>::empty());
        assert(r.len() >= 2);
        lemma_dec_items_of(ts, Seq::empty());
        assert(dec_items(r) == Some((ts, Seq::<char>::empty())));
    }
}

} // verus!
