//! The shared session store: tab registry, permission store and download
//! registry, together with the operations the front-end commands perform on
//! it. The store itself is pure data; window creation, event emission and
//! file or network I/O happen outside it, before or after each operation.

use vstd::prelude::*;
use vstd::assert_seqs_equal;

use crate::ext::{absolute_url, cancel_channel, fresh_uuid, is_absolute_url, send_cancel};
use crate::tab::{TabRecord, TabV};

verus! {

/// Why a command failed. Every command surfaces its failure synchronously as
/// one of these; download task failures travel as error events instead.
#[derive(Clone, Copy, PartialEq, Eq, Structural, Debug)]
pub enum SessionError {
    /// A malformed URL was handed in.
    InvalidInput,
    /// The named tab or download is not (or no longer) registered.
    NotFound,
    /// The windowing layer could not create a renderer surface.
    RendererCreationFailed,
    /// A file could not be created, written, read or deleted.
    IoError,
    /// The session could not be written out.
    SerializationError,
    /// The session file exists but does not hold a valid session.
    DeserializationError,
    /// An HTTP request or response stream failed.
    NetworkError,
}

/// One decision of the permission store: whether `origin` may use the
/// capability `kind`.
pub struct PermissionGrant {
    pub origin: String,
    pub kind: String,
    pub allow: bool,
}

impl Clone for PermissionGrant {
    fn clone(&self) -> (r: Self)
        ensures
            r == *self,
    {
        PermissionGrant { origin: self.origin.clone(), kind: self.kind.clone(), allow: self.allow }
    }
}

/// One in-flight download: its identifier and the live end of its
/// cancellation signal. The entry exists exactly while the transfer task
/// runs; every terminal outcome removes it.
pub struct DownloadHandle {
    pub id: String,
    pub cancel: tokio::sync::oneshot::Sender<()>,
}

/// First index whose element satisfies `p`, or `s.len()` if none does.
pub open spec fn idx_where<T>(s: Seq<T>, p: spec_fn(T) -> bool) -> int
    decreases s.len(),
{
    if s.len() == 0 {
        0
    } else if p(s[0]) {
        0
    } else {
        1 + idx_where(s.subrange(1, s.len() as int), p)
    }
}

/// Whether some element of `s` satisfies `p`.
pub open spec fn has_where<T>(s: Seq<T>, p: spec_fn(T) -> bool) -> bool {
    idx_where(s, p) < s.len()
}

/// At most one element of `s` satisfies `p`.
pub open spec fn at_most_one<T>(s: Seq<T>, p: spec_fn(T) -> bool) -> bool {
    forall|i: int, j: int| 0 <= i < j < s.len() ==> !(p(#[trigger] s[i]) && p(#[trigger] s[j]))
}

pub proof fn lemma_idx_where<T>(s: Seq<T>, p: spec_fn(T) -> bool)
    ensures
        0 <= idx_where(s, p) <= s.len(),
        has_where(s, p) ==> p(s[idx_where(s, p)]),
        forall|j: int| 0 <= j < idx_where(s, p) ==> !p(#[trigger] s[j]),
    decreases s.len(),
{
    if s.len() > 0 && !p(s[0]) {
        let rest = s.subrange(1, s.len() as int);
        lemma_idx_where(rest, p);
        assert forall|j: int| 0 <= j < idx_where(s, p) implies !p(#[trigger] s[j]) by {
            if j > 0 {
                assert(s[j] == rest[j - 1]);
            }
        }
    }
}

/// Removing the lone match of `p` leaves no match behind.
pub proof fn lemma_remove_where<T>(s: Seq<T>, p: spec_fn(T) -> bool)
    requires
        at_most_one(s, p),
        has_where(s, p),
    ensures
        !has_where(s.remove(idx_where(s, p)), p),
    decreases s.len(),
{
    let i = idx_where(s, p);
    let s2 = s.remove(i);
    lemma_idx_where(s, p);
    s.remove_ensures(i);
    lemma_idx_where(s2, p);
    if has_where(s2, p) {
        let k = idx_where(s2, p);
        if k < i {
            assert(s2[k] == s[k]);
        } else {
            assert(s2[k] == s[k + 1]);
        }
    }
}

/// The tab registry holds at most one record per identifier.
pub open spec fn tabs_wf(s: Seq<TabRecord>) -> bool {
    forall|id: Seq<char>| at_most_one(s, tab_with_id(id))
}

pub open spec fn tab_with_id(id: Seq<char>) -> spec_fn(TabRecord) -> bool {
    |t: TabRecord| t.id@ == id
}

/// The permission store holds at most one decision per (origin, kind) pair.
pub open spec fn perms_wf(s: Seq<PermissionGrant>) -> bool {
    forall|origin: Seq<char>, kind: Seq<char>| at_most_one(s, perm_with_key(origin, kind))
}

pub open spec fn perm_with_key(origin: Seq<char>, kind: Seq<char>) -> spec_fn(
    PermissionGrant,
) -> bool {
    |g: PermissionGrant| g.origin@ == origin && g.kind@ == kind
}

/// The download registry holds at most one handle per identifier.
pub open spec fn dls_wf(s: Seq<DownloadHandle>) -> bool {
    forall|id: Seq<char>| at_most_one(s, dl_with_id(id))
}

pub open spec fn dl_with_id(id: Seq<char>) -> spec_fn(DownloadHandle) -> bool {
    |d: DownloadHandle| d.id@ == id
}

/// The stored decision for `(origin, kind)`, with the fail-closed default:
/// an undecided pair is denied.
pub open spec fn spec_permission(s: Seq<PermissionGrant>, origin: Seq<char>, kind: Seq<char>) -> bool {
    if has_where(s, perm_with_key(origin, kind)) {
        s[idx_where(s, perm_with_key(origin, kind))].allow
    } else {
        false
    }
}

/// `p` holds somewhere in `s` exactly when it holds at a witness index.
pub proof fn lemma_has_witness<T>(s: Seq<T>, p: spec_fn(T) -> bool, k: int)
    requires
        0 <= k < s.len(),
        p(s[k]),
    ensures
        has_where(s, p),
{
    lemma_idx_where(s, p);
}

/// Removing any element cannot create a second match of any predicate.
proof fn lemma_remove_at_most_one<T>(s: Seq<T>, i: int, p: spec_fn(T) -> bool)
    requires
        0 <= i < s.len(),
        at_most_one(s, p),
    ensures
        at_most_one(s.remove(i), p),
{
    s.remove_ensures(i);
    let s2 = s.remove(i);
    assert forall|k: int, l: int| 0 <= k < l < s2.len() implies !(p(#[trigger] s2[k]) && p(
        #[trigger] s2[l],
    )) by {
        let k0 = if k < i { k } else { k + 1 };
        let l0 = if l < i { l } else { l + 1 };
        assert(s2[k] == s[k0]);
        assert(s2[l] == s[l0]);
    }
}

/// Appending an element keeps every predicate single-matched, provided the
/// new element does not duplicate an existing match.
proof fn lemma_push_at_most_one<T>(s: Seq<T>, t: T, p: spec_fn(T) -> bool)
    requires
        at_most_one(s, p),
        p(t) ==> !has_where(s, p),
    ensures
        at_most_one(s.push(t), p),
{
    lemma_idx_where(s, p);
    let s2 = s.push(t);
    assert forall|k: int, l: int| 0 <= k < l < s2.len() implies !(p(#[trigger] s2[k]) && p(
        #[trigger] s2[l],
    )) by {
        if l < s.len() {
            assert(s2[k] == s[k]);
            assert(s2[l] == s[l]);
        } else {
            assert(s2[l] == t);
            assert(s2[k] == s[k]);
        }
    }
}

/// Replacing an element in place keeps every predicate single-matched,
/// provided the replacement matches exactly where the replaced one did.
proof fn lemma_update_at_most_one<T>(s: Seq<T>, i: int, t: T, p: spec_fn(T) -> bool)
    requires
        0 <= i < s.len(),
        at_most_one(s, p),
        p(t) == p(s[i]),
    ensures
        at_most_one(s.update(i, t), p),
{
    let s2 = s.update(i, t);
    assert forall|k: int, l: int| 0 <= k < l < s2.len() implies !(p(#[trigger] s2[k]) && p(
        #[trigger] s2[l],
    )) by {
        assert(s2[k] == if k == i { t } else { s[k] });
        assert(s2[l] == if l == i { t } else { s[l] });
    }
}

/// The whole shared store, guarded by one lock outside this module.
pub struct SessionState {
    pub tabs: Vec<TabRecord>,
    pub permissions: Vec<PermissionGrant>,
    pub downloads: Vec<DownloadHandle>,
}

impl SessionState {
    /// All three registries keep their keys unique.
    pub open spec fn wf(&self) -> bool {
        tabs_wf(self.tabs@) && perms_wf(self.permissions@) && dls_wf(self.downloads@)
    }

    pub fn new() -> (s: Self)
        ensures
            s.wf(),
            s.tabs@ =~= Seq::<TabRecord>::empty(),
            s.permissions@ =~= Seq::<PermissionGrant>::empty(),
            s.downloads@ =~= Seq::<DownloadHandle>::empty(),
    {
        SessionState { tabs: Vec::new(), permissions: Vec::new(), downloads: Vec::new() }
    }
}

fn find_tab(tabs: &Vec<TabRecord>, id: &String) -> (r: Option<usize>)
    ensures
        r is Some <==> has_where(tabs@, tab_with_id(id@)),
        r matches Some(i) ==> i < tabs@.len() && i as int == idx_where(tabs@, tab_with_id(id@)),
{
    let ghost p = tab_with_id(id@);
    let mut i: usize = 0;
    while i < tabs.len()
        invariant
            i <= tabs@.len(),
            p == tab_with_id(id@),
            forall|j: int| 0 <= j < i ==> !p(#[trigger] tabs@[j]),
        decreases tabs@.len() - i,
    {
        if tabs[i].id == *id {
            proof {
                lemma_idx_where(tabs@, p);
                assert(p(tabs@[i as int]));
            }
            return Some(i);
        }
        i += 1;
    }
    proof {
        lemma_idx_where(tabs@, p);
    }
    None
}

/// What a self-report merges into an existing record: title and loading are
/// overwritten, the URL follows the page, and the favicon is only replaced
/// by a non-empty report, so in-page navigation does not flicker to a blank
/// icon.
pub open spec fn merged_tab(
    t: TabV,
    title: Seq<char>,
    url: Seq<char>,
    favicon: Seq<char>,
    loading: bool,
) -> TabV {
    TabV {
        id: t.id,
        label: t.label,
        url,
        title: Some(title),
        favicon: if favicon.len() == 0 {
            t.favicon
        } else {
            Some(favicon)
        },
        loading: Some(loading),
    }
}

/// Validates the URL and allocates the record for a new tab: a fresh
/// identifier, the surface label derived from it, `loading` set, title and
/// favicon still unknown. The caller asks the windowing layer for a surface
/// under that label and only then commits the record, so a failed creation
/// leaves no partial state.
pub fn create_tab(url: &String) -> (r: Result<TabRecord, SessionError>)
    ensures
        r is Ok <==> absolute_url(url@),
        r matches Ok(t) ==> t@.url == url@ && t@.title is None && t@.favicon is None
            && t@.loading == Some(true) && t@.label == "tab-"@ + t@.id,
        r matches Err(e) ==> e == SessionError::InvalidInput,
{
    if !is_absolute_url(url.as_str()) {
        return Err(SessionError::InvalidInput);
    }
    let id = fresh_uuid();
    let mut label = String::from_str("tab-");
    label.append(id.as_str());
    Ok(TabRecord { id, label, url: url.clone(), title: None, favicon: None, loading: Some(true) })
}

impl SessionState {
    /// Inserts the record of a tab whose renderer surface now exists. A
    /// colliding identifier replaces the stale record instead of duplicating
    /// it.
    pub fn commit_tab(&mut self, tab: TabRecord)
        requires
            old(self).wf(),
        ensures
            final(self).wf(),
            final(self).permissions == old(self).permissions,
            final(self).downloads == old(self).downloads,
            !has_where(old(self).tabs@, tab_with_id(tab.id@)) ==> final(self).tabs@ == old(
                self,
            ).tabs@.push(tab),
            has_where(old(self).tabs@, tab_with_id(tab.id@)) ==> final(self).tabs@ == old(
                self,
            ).tabs@.remove(idx_where(old(self).tabs@, tab_with_id(tab.id@))).push(tab),
            has_where(final(self).tabs@, tab_with_id(tab.id@)),
    {
        let ghost p = tab_with_id(tab.id@);
        let ghost s0 = self.tabs@;
        match find_tab(&self.tabs, &tab.id) {
            Some(i) => {
                proof {
                    assert(at_most_one(s0, p));
                    lemma_remove_where(s0, p);
                }
                self.tabs.remove(i);
            },
            None => {},
        }
        let ghost s1 = self.tabs@;
        proof {
            assert forall|id: Seq<char>| at_most_one(s1, tab_with_id(id)) by {
                if has_where(s0, p) {
                    lemma_remove_at_most_one(s0, idx_where(s0, p), tab_with_id(id));
                }
            }
            assert(p(tab));
            assert forall|id: Seq<char>| at_most_one(s1.push(tab), tab_with_id(id)) by {
                lemma_idx_where(s1, tab_with_id(id));
                lemma_push_at_most_one(s1, tab, tab_with_id(id));
            }
            lemma_has_witness(s1.push(tab), p, s1.len() as int);
        }
        self.tabs.push(tab);
    }

    /// Snapshot of every current tab record; callers receive copies.
    pub fn list_tabs(&self) -> (r: Vec<TabRecord>)
        ensures
            r@ == self.tabs@,
    {
        let mut out: Vec<TabRecord> = Vec::new();
        let mut i: usize = 0;
        while i < self.tabs.len()
            invariant
                i <= self.tabs@.len(),
                out@ == self.tabs@.subrange(0, i as int),
            decreases self.tabs@.len() - i,
        {
            out.push(self.tabs[i].clone());
            proof {
                assert(out@ =~= self.tabs@.subrange(0, i as int + 1));
            }
            i += 1;
        }
        proof {
            assert(out@ =~= self.tabs@);
        }
        out
    }

    /// Applies a page self-report. A report for an identifier that is no
    /// longer registered is silently dropped — the store is left exactly as
    /// it was — never used to resurrect a closed tab.
    pub fn report_page_state(
        &mut self,
        tab_id: &String,
        title: String,
        url: String,
        favicon: String,
        loading: bool,
    ) -> (r: Option<TabRecord>)
        requires
            old(self).wf(),
        ensures
            final(self).wf(),
            final(self).permissions == old(self).permissions,
            final(self).downloads == old(self).downloads,
            !has_where(old(self).tabs@, tab_with_id(tab_id@)) ==> *final(self) == *old(self) && r
                is None,
            has_where(old(self).tabs@, tab_with_id(tab_id@)) ==> ({
                let i = idx_where(old(self).tabs@, tab_with_id(tab_id@));
                &&& r matches Some(u)
                &&& u@ == merged_tab(old(self).tabs@[i]@, title@, url@, favicon@, loading)
                &&& final(self).tabs@ == old(self).tabs@.update(i, u)
            }),
    {
        let ghost p = tab_with_id(tab_id@);
        let ghost s0 = self.tabs@;
        match find_tab(&self.tabs, tab_id) {
            None => None,
            Some(i) => {
                let t = &self.tabs[i];
                let merged = TabRecord {
                    id: t.id.clone(),
                    label: t.label.clone(),
                    url,
                    title: Some(title),
                    favicon: if favicon.as_str().is_empty() {
                        match &t.favicon {
                            Some(f) => Some(f.clone()),
                            None => None,
                        }
                    } else {
                        Some(favicon)
                    },
                    loading: Some(loading),
                };
                let ret = merged.clone();
                self.tabs.remove(i);
                self.tabs.insert(i, merged);
                proof {
                    assert(self.tabs@ =~= s0.update(i as int, self.tabs@[i as int]));
                    assert forall|id: Seq<char>| at_most_one(self.tabs@, tab_with_id(id)) by {
                        lemma_update_at_most_one(
                            s0,
                            i as int,
                            self.tabs@[i as int],
                            tab_with_id(id),
                        );
                    }
                }
                Some(ret)
            },
        }
    }

    /// Validates the URL and names the renderer surface that should load it
    /// in place; the caller instructs that surface.
    pub fn navigate_tab(&self, tab_id: &String, url: &String) -> (r: Result<String, SessionError>)
        ensures
            r is Ok <==> absolute_url(url@) && has_where(self.tabs@, tab_with_id(tab_id@)),
            r matches Ok(label) ==> label@ == self.tabs@[idx_where(
                self.tabs@,
                tab_with_id(tab_id@),
            )].label@,
            !absolute_url(url@) ==> r == Err::<String, SessionError>(SessionError::InvalidInput),
            absolute_url(url@) && !has_where(self.tabs@, tab_with_id(tab_id@)) ==> r == Err::<
                String,
                SessionError,
            >(SessionError::NotFound),
    {
        if !is_absolute_url(url.as_str()) {
            return Err(SessionError::InvalidInput);
        }
        match find_tab(&self.tabs, tab_id) {
            Some(i) => Ok(self.tabs[i].label.clone()),
            None => Err(SessionError::NotFound),
        }
    }

    /// Removes the record; the caller closes the surface named by the
    /// returned record's label and announces the closure. Unknown
    /// identifiers fail with `NotFound` and leave the store untouched.
    pub fn close_tab(&mut self, tab_id: &String) -> (r: Result<TabRecord, SessionError>)
        requires
            old(self).wf(),
        ensures
            final(self).wf(),
            final(self).permissions == old(self).permissions,
            final(self).downloads == old(self).downloads,
            r is Ok <==> has_where(old(self).tabs@, tab_with_id(tab_id@)),
            r matches Ok(t) ==> ({
                let i = idx_where(old(self).tabs@, tab_with_id(tab_id@));
                &&& t == old(self).tabs@[i]
                &&& final(self).tabs@ == old(self).tabs@.remove(i)
                &&& !has_where(final(self).tabs@, tab_with_id(tab_id@))
            }),
            r is Err ==> r == Err::<TabRecord, SessionError>(SessionError::NotFound) && *final(self)
                == *old(self),
    {
        let ghost p = tab_with_id(tab_id@);
        let ghost s0 = self.tabs@;
        match find_tab(&self.tabs, tab_id) {
            Some(i) => {
                proof {
                    assert(at_most_one(s0, p));
                    lemma_remove_where(s0, p);
                    assert forall|id: Seq<char>| at_most_one(s0.remove(i as int), tab_with_id(id)) by {
                        lemma_remove_at_most_one(s0, i as int, tab_with_id(id));
                    }
                }
                let t = self.tabs.remove(i);
                Ok(t)
            },
            None => Err(SessionError::NotFound),
        }
    }

    /// The arbitrary "active" tab the devtools hotkey acts on: the first
    /// record in iteration order. The selection policy is a placeholder, not
    /// intentional product behaviour.
    pub fn active_tab(&self) -> (r: Option<TabRecord>)
        ensures
            r is None <==> self.tabs@.len() == 0,
            r matches Some(t) ==> t == self.tabs@[0],
    {
        if self.tabs.len() == 0 {
            None
        } else {
            Some(self.tabs[0].clone())
        }
    }

    /// Names the renderer surface whose developer tools should open.
    pub fn devtools_target(&self, tab_id: &String) -> (r: Result<String, SessionError>)
        ensures
            r is Ok <==> has_where(self.tabs@, tab_with_id(tab_id@)),
            r matches Ok(label) ==> label@ == self.tabs@[idx_where(
                self.tabs@,
                tab_with_id(tab_id@),
            )].label@,
            r is Err ==> r == Err::<String, SessionError>(SessionError::NotFound),
    {
        match find_tab(&self.tabs, tab_id) {
            Some(i) => Ok(self.tabs[i].label.clone()),
            None => Err(SessionError::NotFound),
        }
    }
}

fn find_perm(perms: &Vec<PermissionGrant>, origin: &String, kind: &String) -> (r: Option<usize>)
    ensures
        r is Some <==> has_where(perms@, perm_with_key(origin@, kind@)),
        r matches Some(i) ==> i < perms@.len() && i as int == idx_where(
            perms@,
            perm_with_key(origin@, kind@),
        ),
{
    let ghost p = perm_with_key(origin@, kind@);
    let mut i: usize = 0;
    while i < perms.len()
        invariant
            i <= perms@.len(),
            p == perm_with_key(origin@, kind@),
            forall|j: int| 0 <= j < i ==> !p(#[trigger] perms@[j]),
        decreases perms@.len() - i,
    {
        if perms[i].origin == *origin && perms[i].kind == *kind {
            proof {
                lemma_idx_where(perms@, p);
                assert(p(perms@[i as int]));
            }
            return Some(i);
        }
        i += 1;
    }
    proof {
        lemma_idx_where(perms@, p);
    }
    None
}

impl SessionState {
    /// The permission check for `(origin, kind)`: the stored
    /// decision, or the fail-closed default `false` when none was ever
    /// stored. Never prompts and never records anything.
    pub fn request_permission(&self, origin: &String, kind: &String) -> (r: bool)
        ensures
            r == spec_permission(self.permissions@, origin@, kind@),
    {
        match find_perm(&self.permissions, origin, kind) {
            Some(i) => self.permissions[i].allow,
            None => false,
        }
    }

    /// Stores the decision for `(origin, kind)`, replacing an earlier one;
    /// a permission check then returns exactly `allow` for that pair.
    pub fn set_permission(&mut self, origin: String, kind: String, allow: bool)
        requires
            old(self).wf(),
        ensures
            final(self).wf(),
            final(self).tabs == old(self).tabs,
            final(self).downloads == old(self).downloads,
            spec_permission(final(self).permissions@, origin@, kind@) == allow,
            ({
                let q = final(self).permissions@;
                let g = q[q.len() - 1];
                &&& q.len() >= 1
                &&& g.origin@ == origin@
                &&& g.kind@ == kind@
                &&& g.allow == allow
                &&& if has_where(old(self).permissions@, perm_with_key(origin@, kind@)) {
                    q == old(self).permissions@.remove(
                        idx_where(old(self).permissions@, perm_with_key(origin@, kind@)),
                    ).push(g)
                } else {
                    q == old(self).permissions@.push(g)
                }
            }),
    {
        let ghost p = perm_with_key(origin@, kind@);
        let ghost s0 = self.permissions@;
        match find_perm(&self.permissions, &origin, &kind) {
            Some(i) => {
                proof {
                    assert(at_most_one(s0, p));
                    lemma_remove_where(s0, p);
                }
                self.permissions.remove(i);
            },
            None => {},
        }
        let ghost s1 = self.permissions@;
        let grant = PermissionGrant { origin, kind, allow };
        proof {
            assert forall|o: Seq<char>, k: Seq<char>| at_most_one(s1, perm_with_key(o, k)) by {
                if has_where(s0, p) {
                    lemma_remove_at_most_one(s0, idx_where(s0, p), perm_with_key(o, k));
                }
            }
            assert(p(grant));
            assert forall|o: Seq<char>, k: Seq<char>| at_most_one(
                s1.push(grant),
                perm_with_key(o, k),
            ) by {
                lemma_idx_where(s1, perm_with_key(o, k));
                lemma_push_at_most_one(s1, grant, perm_with_key(o, k));
            }
            // The freshly pushed grant is the first and only match, so the
            // permission check now reads back exactly `allow`.
            lemma_idx_where(s1, p);
            lemma_idx_where(s1.push(grant), p);
            let s2 = s1.push(grant);
            let i2 = idx_where(s2, p);
            lemma_has_witness(s2, p, s1.len() as int);
            assert(forall|j: int| 0 <= j < s1.len() ==> !p(#[trigger] s1[j]));
            assert(forall|j: int| 0 <= j < s1.len() ==> s2[j] == s1[j]);
            assert(p(s2[i2]));
            assert(i2 == s1.len() as int);
        }
        self.permissions.push(grant);
    }

    /// Registers a new download: a fresh identifier and a live cancellation
    /// signal. Returns the identifier and the receiving end the transfer
    /// task must watch while it streams; scheduling the task, the HTTP
    /// transfer itself and the progress events happen outside the store.
    pub fn start_download(&mut self) -> (r: (String, tokio::sync::oneshot::Receiver<()>))
        requires
            old(self).wf(),
        ensures
            final(self).wf(),
            final(self).tabs == old(self).tabs,
            final(self).permissions == old(self).permissions,
            has_where(final(self).downloads@, dl_with_id(r.0@)),
            ({
                let q = final(self).downloads@;
                let h = q[q.len() - 1];
                &&& q.len() >= 1
                &&& h.id@ == r.0@
                &&& if has_where(old(self).downloads@, dl_with_id(r.0@)) {
                    q == old(self).downloads@.remove(
                        idx_where(old(self).downloads@, dl_with_id(r.0@)),
                    ).push(h)
                } else {
                    q == old(self).downloads@.push(h)
                }
            }),
    {
        let id = fresh_uuid();
        let (tx, rx) = cancel_channel();
        let ghost p = dl_with_id(id@);
        let ghost s0 = self.downloads@;
        match find_download(&self.downloads, &id) {
            Some(i) => {
                proof {
                    assert(at_most_one(s0, p));
                    lemma_remove_where(s0, p);
                }
                self.downloads.remove(i);
            },
            None => {},
        }
        let ghost s1 = self.downloads@;
        let handle = DownloadHandle { id: id.clone(), cancel: tx };
        proof {
            assert forall|d: Seq<char>| at_most_one(s1, dl_with_id(d)) by {
                if has_where(s0, p) {
                    lemma_remove_at_most_one(s0, idx_where(s0, p), dl_with_id(d));
                }
            }
            assert(p(handle));
            assert forall|d: Seq<char>| at_most_one(s1.push(handle), dl_with_id(d)) by {
                lemma_idx_where(s1, dl_with_id(d));
                lemma_push_at_most_one(s1, handle, dl_with_id(d));
            }
            lemma_has_witness(s1.push(handle), p, s1.len() as int);
        }
        self.downloads.push(handle);
        (id, rx)
    }

    /// Signals the named transfer task to stop and drops its registry entry.
    /// The signal is fire-and-forget: the actual stop is observed later
    /// through the "download cancelled" event. An identifier that is absent
    /// or already terminal fails with `NotFound` — a one-shot cancellation
    /// cannot be consumed twice.
    pub fn cancel_download(&mut self, download_id: &String) -> (r: Result<(), SessionError>)
        requires
            old(self).wf(),
        ensures
            final(self).wf(),
            final(self).tabs == old(self).tabs,
            final(self).permissions == old(self).permissions,
            r is Ok <==> has_where(old(self).downloads@, dl_with_id(download_id@)),
            r is Ok ==> final(self).downloads@ == old(self).downloads@.remove(
                idx_where(old(self).downloads@, dl_with_id(download_id@)),
            ) && !has_where(final(self).downloads@, dl_with_id(download_id@)),
            r is Err ==> r == Err::<(), SessionError>(SessionError::NotFound) && *final(self)
                == *old(self),
    {
        let ghost p = dl_with_id(download_id@);
        let ghost s0 = self.downloads@;
        match find_download(&self.downloads, download_id) {
            Some(i) => {
                proof {
                    assert(at_most_one(s0, p));
                    lemma_remove_where(s0, p);
                    assert forall|d: Seq<char>| at_most_one(s0.remove(i as int), dl_with_id(d)) by {
                        lemma_remove_at_most_one(s0, i as int, dl_with_id(d));
                    }
                }
                let h = self.downloads.remove(i);
                send_cancel(h.cancel);
                Ok(())
            },
            None => Err(SessionError::NotFound),
        }
    }

    /// Drops the registry entry of a download whose task reached a terminal
    /// outcome (completed or failed) on its own, so that later cancellation
    /// requests fail cleanly instead of signalling a finished task. Returns
    /// whether an entry was still registered; a missing entry (the download
    /// was cancelled) is not an error.
    pub fn finish_download(&mut self, download_id: &String) -> (r: bool)
        requires
            old(self).wf(),
        ensures
            final(self).wf(),
            final(self).tabs == old(self).tabs,
            final(self).permissions == old(self).permissions,
            r == has_where(old(self).downloads@, dl_with_id(download_id@)),
            r ==> final(self).downloads@ == old(self).downloads@.remove(
                idx_where(old(self).downloads@, dl_with_id(download_id@)),
            ) && !has_where(final(self).downloads@, dl_with_id(download_id@)),
            !r ==> *final(self) == *old(self),
    {
        let ghost p = dl_with_id(download_id@);
        let ghost s0 = self.downloads@;
        match find_download(&self.downloads, download_id) {
            Some(i) => {
                proof {
                    assert(at_most_one(s0, p));
                    lemma_remove_where(s0, p);
                    assert forall|d: Seq<char>| at_most_one(s0.remove(i as int), dl_with_id(d)) by {
                        lemma_remove_at_most_one(s0, i as int, dl_with_id(d));
                    }
                }
                self.downloads.remove(i);
                true
            },
            None => false,
        }
    }
}

fn find_download(dls: &Vec<DownloadHandle>, id: &String) -> (r: Option<usize>)
    ensures
        r is Some <==> has_where(dls@, dl_with_id(id@)),
        r matches Some(i) ==> i < dls@.len() && i as int == idx_where(dls@, dl_with_id(id@)),
{
    let ghost p = dl_with_id(id@);
    let mut i: usize = 0;
    while i < dls.len()
        invariant
            i <= dls@.len(),
            p == dl_with_id(id@),
            forall|j: int| 0 <= j < i ==> !p(#[trigger] dls@[j]),
        decreases dls@.len() - i,
    {
        if dls[i].id == *id {
            proof {
                lemma_idx_where(dls@, p);
                assert(p(dls@[i as int]));
            }
            return Some(i);
        }
        i += 1;
    }
    proof {
        lemma_idx_where(dls@, p);
    }
    None
}

/// Replace-or-append of one record, exactly as `commit_tab` performs it.
pub open spec fn tab_upsert(s: Seq<TabRecord>, t: TabRecord) -> Seq<TabRecord> {
    if has_where(s, tab_with_id(t.id@)) {
        s.remove(idx_where(s, tab_with_id(t.id@))).push(t)
    } else {
        s.push(t)
    }
}

/// Committing a list of records into the registry, first to last.
pub open spec fn commit_all(s: Seq<TabRecord>, ts: Seq<TabRecord>) -> Seq<TabRecord>
    decreases ts.len(),
{
    if ts.len() == 0 {
        s
    } else {
        commit_all(tab_upsert(s, ts[0]), ts.subrange(1, ts.len() as int))
    }
}

pub(crate) proof fn lemma_commit_all_snoc(s: Seq<TabRecord>, ts: Seq<TabRecord>, t: TabRecord)
    ensures
        commit_all(s, ts.push(t)) == tab_upsert(commit_all(s, ts), t),
    decreases ts.len(),
{
    let ts2 = ts.push(t);
    if ts.len() == 0 {
        assert(ts2[0] == t);
        assert_seqs_equal!(ts2.subrange(1, ts2.len() as int), Seq::<TabRecord>::empty());
        assert(commit_all(s, ts2) == commit_all(
            tab_upsert(s, t),
            Seq::<TabRecord>::empty(),
        ));
        assert(commit_all(tab_upsert(s, t), Seq::<TabRecord>::empty()) == tab_upsert(s, t));
        assert(commit_all(s, ts) == s);
    } else {
        assert(ts2[0] == ts[0]);
        assert_seqs_equal!(
            ts2.subrange(1, ts2.len() as int),
            ts.subrange(1, ts.len() as int).push(t)
        );
        assert(commit_all(s, ts2) == commit_all(
            tab_upsert(s, ts[0]),
            ts.subrange(1, ts.len() as int).push(t),
        ));
        assert(commit_all(s, ts) == commit_all(
            tab_upsert(s, ts[0]),
            ts.subrange(1, ts.len() as int),
        ));
        lemma_commit_all_snoc(tab_upsert(s, ts[0]), ts.subrange(1, ts.len() as int), t);
    }
}

/// Law: restoring records whose identifiers are distinct into a registry
/// that holds none of them appends them in order; in particular, restoring
/// into an empty registry reproduces the stored session exactly.
pub proof fn lemma_commit_all_disjoint(s: Seq<TabRecord>, ts: Seq<TabRecord>)
    requires
        tabs_wf(s + ts),
    ensures
        commit_all(s, ts) == s + ts,
    decreases ts.len(),
{
    if ts.len() == 0 {
        assert_seqs_equal!(s + ts, s);
    } else {
        let t = ts[0];
        let ts1 = ts.subrange(1, ts.len() as int);
        let p = tab_with_id(t.id@);
        if has_where(s, p) {
            lemma_idx_where(s, p);
            let i = idx_where(s, p);
            assert((s + ts)[i] == s[i]);
            assert((s + ts)[s.len() as int] == t);
            assert(!at_most_one(s + ts, p));
        }
        assert(tab_upsert(s, t) == s.push(t));
        assert_seqs_equal!(s.push(t) + ts1, s + ts);
        lemma_commit_all_disjoint(s.push(t), ts1);
        assert_seqs_equal!(commit_all(s, ts), s + ts);
    }
}

/// Law: committing a freshly created tab changes the listing by exactly one
/// record — every old record is still listed unchanged, and the one new
/// record sits at the end and is the only one carrying its identifier.
pub proof fn lemma_create_then_list(s: Seq<TabRecord>, t: TabRecord)
    requires
        tabs_wf(s),
        !has_where(s, tab_with_id(t.id@)),
    ensures
        s.push(t).len() == s.len() + 1,
        s.push(t)[s.len() as int] == t,
        forall|j: int| 0 <= j < s.len() ==> s.push(t)[j] == s[j],
        idx_where(s.push(t), tab_with_id(t.id@)) == s.len(),
        has_where(s.push(t), tab_with_id(t.id@)),
        tabs_wf(s.push(t)),
{
    let p = tab_with_id(t.id@);
    let s2 = s.push(t);
    lemma_idx_where(s, p);
    lemma_has_witness(s2, p, s.len() as int);
    lemma_idx_where(s2, p);
    let i = idx_where(s2, p);
    if i < s.len() {
        assert(p(s2[i]));
        assert(s2[i] == s[i]);
        lemma_has_witness(s, p, i);
    }
    assert forall|id: Seq<char>| at_most_one(s2, tab_with_id(id)) by {
        lemma_idx_where(s, tab_with_id(id));
        lemma_push_at_most_one(s, t, tab_with_id(id));
    }
}

/// Law: a closed tab stays closed. After a successful close removes the
/// record, a second close of the same identifier finds nothing and must
/// fail with `NotFound`.
pub proof fn lemma_close_then_close(s: Seq<TabRecord>, id: Seq<char>)
    requires
        tabs_wf(s),
        has_where(s, tab_with_id(id)),
    ensures
        !has_where(s.remove(idx_where(s, tab_with_id(id))), tab_with_id(id)),
{
    assert(at_most_one(s, tab_with_id(id)));
    lemma_remove_where(s, tab_with_id(id));
}

/// Law: a cancellation is one-shot. A successful cancel consumes the
/// registry entry, so a second cancel of the same identifier finds nothing
/// and must fail with `NotFound`.
pub proof fn lemma_cancel_then_cancel(s: Seq<DownloadHandle>, id: Seq<char>)
    requires
        dls_wf(s),
        has_where(s, dl_with_id(id)),
    ensures
        !has_where(s.remove(idx_where(s, dl_with_id(id))), dl_with_id(id)),
{
    assert(at_most_one(s, dl_with_id(id)));
    lemma_remove_where(s, dl_with_id(id));
}

} // verus!
