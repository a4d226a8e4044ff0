//! Asset downloads: the request, the ledger that makes them resumable, the
//! CDN URLs, and the decisions taken around each fetch.

use crate::text::join2;
use crate::utils::{push_component, push_path, strs_text};
use vstd::prelude::*;
use vstd::string::StringExecFns;

verus! {

/// One file to fetch: from `url` into `folder`/`filename`.
pub struct DownloadRequest {
    pub url: String,
    pub folder: String,
    pub filename: String,
}

impl View for DownloadRequest {
    type V = (Seq<char>, Seq<char>, Seq<char>);

    open spec fn view(&self) -> Self::V {
        (self.url@, self.folder@, self.filename@)
    }
}

impl DownloadRequest {
    pub fn same_as(&self, other: &DownloadRequest) -> (r: bool)
        ensures
            r == (self@ == other@),
    {
        self.url == other.url && self.folder == other.folder && self.filename == other.filename
    }

    pub fn copied(&self) -> (r: DownloadRequest)
        ensures
            r@ == self@,
    {
        DownloadRequest {
            url: self.url.clone(),
            folder: self.folder.clone(),
            filename: self.filename.clone(),
        }
    }
}

/// A record of the download ledger.
pub enum DownloadLogEvent {
    /// The download was submitted.
    Start(DownloadRequest),
    /// The download finished and its file is in place.
    Complete(DownloadRequest),
}

/// A ledger record as (finished, request).
pub open spec fn ledger_entry(e: DownloadLogEvent) -> (bool, (Seq<char>, Seq<char>, Seq<char>)) {
    match e {
        DownloadLogEvent::Start(r) => (false, r@),
        DownloadLogEvent::Complete(r) => (true, r@),
    }
}

pub open spec fn ledger_entries(evs: Seq<DownloadLogEvent>) -> Seq<
    (bool, (Seq<char>, Seq<char>, Seq<char>)),
> {
    evs.map_values(|e: DownloadLogEvent| ledger_entry(e))
}

/// The state of each request after `evs` are applied to `m`: the latest
/// record about a request wins.
pub open spec fn ledger_from(
    m: Map<(Seq<char>, Seq<char>, Seq<char>), bool>,
    evs: Seq<(bool, (Seq<char>, Seq<char>, Seq<char>))>,
) -> Map<(Seq<char>, Seq<char>, Seq<char>), bool>
    decreases evs.len(),
{
    if evs.len() == 0 {
        m
    } else {
        ledger_from(m, evs.drop_last()).insert(evs.last().1, evs.last().0)
    }
}

/// The requests whose latest ledger record is a start.
pub open spec fn pending_set(evs: Seq<(bool, (Seq<char>, Seq<char>, Seq<char>))>) -> Set<
    (Seq<char>, Seq<char>, Seq<char>),
> {
    let l = ledger_from(Map::empty(), evs);
    Set::new(|r: (Seq<char>, Seq<char>, Seq<char>)| l.contains_key(r) && !l[r])
}

/// The views of a sequence of requests.
pub open spec fn request_views(v: Seq<DownloadRequest>) -> Seq<(Seq<char>, Seq<char>, Seq<char>)> {
    v.map_values(|r: DownloadRequest| r@)
}

fn find_request(states: &Vec<(DownloadRequest, bool)>, req: &DownloadRequest) -> (r: Option<usize>)
    ensures
        r is None ==> forall|k: int| 0 <= k < states@.len() ==> (#[trigger] states@[k]).0@ != req@,
        r matches Some(k) ==> k < states@.len() && states@[k as int].0@ == req@,
{
    let n = states.len();
    let mut k: usize = 0;
    while k < n
        invariant
            k <= n == states@.len(),
            forall|j: int| 0 <= j < k ==> (#[trigger] states@[j]).0@ != req@,
        decreases n - k,
    {
        if states[k].0.same_as(req) {
            return Some(k);
        }
        k = k + 1;
    }
    None
}

/// The downloads still pending after the ledger records `events`: each
/// request whose latest record is a start, once, in no promised order.
pub fn pending_downloads(events: &Vec<DownloadLogEvent>) -> (r: Vec<DownloadRequest>)
    ensures
        request_views(r@).to_set() == pending_set(ledger_entries(events@)),
        request_views(r@).no_duplicates(),
{
    let mut states: Vec<(DownloadRequest, bool)> = Vec::new();
    let n = events.len();
    let mut i: usize = 0;
    while i < n
        invariant
            i <= n == events@.len(),
            forall|a: int, b: int|
                0 <= a < b < states@.len() ==> (#[trigger] states@[a]).0@ != (
                #[trigger] states@[b]).0@,
            forall|k: int|
                0 <= k < states@.len() ==> ledger_from(
                    Map::empty(),
                    ledger_entries(events@.subrange(0, i as int)),
                ).contains_key((#[trigger] states@[k]).0@) && ledger_from(
                    Map::empty(),
                    ledger_entries(events@.subrange(0, i as int)),
                )[states@[k].0@] == states@[k].1,
            forall|r: (Seq<char>, Seq<char>, Seq<char>)| #[trigger]
                ledger_from(
                    Map::empty(),
                    ledger_entries(events@.subrange(0, i as int)),
                ).contains_key(r) ==> exists|k: int| 0 <= k < states@.len() && states@[k].0@ == r,
        decreases n - i,
    {
        let ghost prev = ledger_entries(events@.subrange(0, i as int));
        let ghost next = ledger_entries(events@.subrange(0, i as int + 1));
        let ghost l0 = ledger_from(Map::empty(), prev);
        let ghost old_states = states@;
        proof {
            assert(next.drop_last() =~= prev);
            assert(next.last() == ledger_entry(events@[i as int]));
        }
        let (req, done) = match &events[i] {
            DownloadLogEvent::Start(r) => (r, false),
            DownloadLogEvent::Complete(r) => (r, true),
        };
        let ghost l = ledger_from(Map::empty(), next);
        assert(l == l0.insert(req@, done));
        match find_request(&states, req) {
            Some(k) => {
                let entry = (states[k].0.copied(), done);
                states.set(k, entry);
                proof {
                    assert forall|j: int| 0 <= j < states@.len() implies (
                    #[trigger] states@[j]).0@ == old_states[j].0@ by {}
                    assert forall|r: (Seq<char>, Seq<char>, Seq<char>)| #[trigger]
                        l.contains_key(r) implies exists|j: int|
                        0 <= j < states@.len() && states@[j].0@ == r by {
                        if r == req@ {
                            assert(states@[k as int].0@ == r);
                        } else {
                            assert(l0.contains_key(r));
                            let j = choose|j: int|
                                0 <= j < old_states.len() && old_states[j].0@ == r;
                            assert(states@[j].0@ == r);
                        }
                    }
                    assert forall|j: int| 0 <= j < states@.len() implies l.contains_key(
                        (#[trigger] states@[j]).0@,
                    ) && l[states@[j].0@] == states@[j].1 by {
                        if j != k {
                            assert(old_states[j].0@ != old_states[k as int].0@);
                        }
                    }
                }
            },
            None => {
                states.push((req.copied(), done));
                proof {
                    assert forall|r: (Seq<char>, Seq<char>, Seq<char>)| #[trigger]
                        l.contains_key(r) implies exists|j: int|
                        0 <= j < states@.len() && states@[j].0@ == r by {
                        if r == req@ {
                            assert(states@[old_states.len() as int].0@ == r);
                        } else {
                            assert(l0.contains_key(r));
                            let j = choose|j: int|
                                0 <= j < old_states.len() && old_states[j].0@ == r;
                            assert(states@[j].0@ == r);
                        }
                    }
                    assert forall|j: int| 0 <= j < states@.len() implies l.contains_key(
                        (#[trigger] states@[j]).0@,
                    ) && l[states@[j].0@] == states@[j].1 by {
                        if j < old_states.len() {
                            assert(states@[j] == old_states[j]);
                        }
                    }
                    assert forall|a: int, b: int|
                        0 <= a < b < states@.len() implies (#[trigger] states@[a]).0@ != (
                        #[trigger] states@[b]).0@ by {
                        if b == old_states.len() {
                            assert(states@[a] == old_states[a]);
                        } else {
                            assert(states@[a] == old_states[a]);
                            assert(states@[b] == old_states[b]);
                        }
                    }
                }
            },
        }
        i = i + 1;
    }
    let ghost l = ledger_from(Map::empty(), ledger_entries(events@));
    proof {
        assert(events@.subrange(0, n as int) =~= events@);
    }
    let mut r: Vec<DownloadRequest> = Vec::new();
    let m = states.len();
    let mut c: usize = 0;
    while c < m
        invariant
            c <= m == states@.len(),
            forall|a: int, b: int|
                0 <= a < b < states@.len() ==> (#[trigger] states@[a]).0@ != (
                #[trigger] states@[b]).0@,
            request_views(r@).no_duplicates(),
            forall|x: (Seq<char>, Seq<char>, Seq<char>)|
                request_views(r@).contains(x) <==> exists|k: int|
                    0 <= k < c && (#[trigger] states@[k]).0@ == x && !states@[k].1,
        decreases m - c,
    {
        let ghost before = request_views(r@);
        if !states[c].1 {
            r.push(states[c].0.copied());
            proof {
                assert(request_views(r@) =~= before.push(states@[c as int].0@));
                assert forall|a: int, b: int|
                    0 <= a < b < request_views(r@).len() implies request_views(r@)[a]
                    != request_views(r@)[b] by {
                    if b == before.len() {
                        assert(before.contains(before[a]));
                        let k = choose|k: int|
                            0 <= k < c && (#[trigger] states@[k]).0@ == before[a] && !states@[k].1;
                        assert(states@[k].0@ != states@[c as int].0@);
                    }
                }
                assert forall|x: (Seq<char>, Seq<char>, Seq<char>)|
                    request_views(r@).contains(x) implies exists|k: int|
                        0 <= k < c + 1 && (#[trigger] states@[k]).0@ == x && !states@[k].1 by {
                    let a = choose|a: int| 0 <= a < request_views(r@).len() && request_views(r@)[a] == x;
                    if a < before.len() {
                        assert(before.contains(x));
                    } else {
                        assert(states@[c as int].0@ == x);
                    }
                }
                assert forall|x: (Seq<char>, Seq<char>, Seq<char>)|
                    (exists|k: int| 0 <= k < c + 1 && (#[trigger] states@[k]).0@ == x && !states@[k].1)
                    implies request_views(r@).contains(x) by {
                    let k = choose|k: int| 0 <= k < c + 1 && (#[trigger] states@[k]).0@ == x && !states@[k].1;
                    if k < c {
                        assert(before.contains(x));
                        let a = choose|a: int| 0 <= a < before.len() && before[a] == x;
                        assert(request_views(r@)[a] == x);
                    } else {
                        assert(request_views(r@)[before.len() as int] == x);
                    }
                }
            }
        } else {
            proof {
                assert forall|x: (Seq<char>, Seq<char>, Seq<char>)|
                    (exists|k: int| 0 <= k < c + 1 && (#[trigger] states@[k]).0@ == x && !states@[k].1)
                    implies request_views(r@).contains(x) by {
                    let k = choose|k: int| 0 <= k < c + 1 && (#[trigger] states@[k]).0@ == x && !states@[k].1;
                    assert(k < c);
                }
            }
        }
        c = c + 1;
    }
    proof {
        assert forall|x: (Seq<char>, Seq<char>, Seq<char>)|
            request_views(r@).to_set().contains(x) <==> pending_set(ledger_entries(events@)).contains(x) by {
            if request_views(r@).contains(x) {
                let k = choose|k: int| 0 <= k < m && (#[trigger] states@[k]).0@ == x && !states@[k].1;
                assert(l.contains_key(states@[k].0@));
            }
            if l.contains_key(x) && !l[x] {
                let k = choose|k: int| 0 <= k < states@.len() && states@[k].0@ == x;
                assert(l[states@[k].0@] == states@[k].1);
            }
        }
        assert(request_views(r@).to_set() =~= pending_set(ledger_entries(events@)));
    }
    r
}

pub proof fn lemma_ledger_concat(
    m: Map<(Seq<char>, Seq<char>, Seq<char>), bool>,
    a: Seq<(bool, (Seq<char>, Seq<char>, Seq<char>))>,
    b: Seq<(bool, (Seq<char>, Seq<char>, Seq<char>))>,
)
    ensures
        ledger_from(m, a + b) == ledger_from(ledger_from(m, a), b),
    decreases b.len(),
{
    if b.len() == 0 {
        assert(a + b =~= a);
    } else {
        lemma_ledger_concat(m, a, b.drop_last());
        assert((a + b).drop_last() =~= a + b.drop_last());
    }
}

/// Ledger records that start each of `rs`.
pub open spec fn starts_of(rs: Seq<(Seq<char>, Seq<char>, Seq<char>)>) -> Seq<
    (bool, (Seq<char>, Seq<char>, Seq<char>)),
> {
    marks(rs, false)
}

/// Ledger records that complete each of `rs`.
pub open spec fn completions_of(rs: Seq<(Seq<char>, Seq<char>, Seq<char>)>) -> Seq<
    (bool, (Seq<char>, Seq<char>, Seq<char>)),
> {
    marks(rs, true)
}

/// Ledger records marking each of `rs` as `done` or not.
pub open spec fn marks(rs: Seq<(Seq<char>, Seq<char>, Seq<char>)>, done: bool) -> Seq<
    (bool, (Seq<char>, Seq<char>, Seq<char>)),
> {
    rs.map_values(|r: (Seq<char>, Seq<char>, Seq<char>)| (done, r))
}

proof fn lemma_ledger_marks(
    m: Map<(Seq<char>, Seq<char>, Seq<char>), bool>,
    rs: Seq<(Seq<char>, Seq<char>, Seq<char>)>,
    done: bool,
)
    ensures
        ledger_from(m, marks(rs, done)).dom() == m.dom() + rs.to_set(),
        forall|r: (Seq<char>, Seq<char>, Seq<char>)|
            #[trigger] ledger_from(m, marks(rs, done)).contains_key(r) ==> ledger_from(
                m,
                marks(rs, done),
            )[r] == if rs.contains(r) {
                done
            } else {
                m[r]
            },
    decreases rs.len(),
{
    let evs = marks(rs, done);
    if rs.len() == 0 {
        assert(m.dom() + rs.to_set() =~= m.dom());
    } else {
        let init = rs.drop_last();
        lemma_ledger_marks(m, init, done);
        assert(evs.drop_last() =~= marks(init, done));
        assert(evs.last() == (done, rs.last()));
        assert forall|r: (Seq<char>, Seq<char>, Seq<char>)|
            rs.contains(r) <==> (init.contains(r) || r == rs.last()) by {
            if rs.contains(r) {
                let a = choose|a: int| 0 <= a < rs.len() && rs[a] == r;
                if a < rs.len() - 1 {
                    assert(init[a] == r);
                }
            }
            if init.contains(r) {
                let a = choose|a: int| 0 <= a < init.len() && init[a] == r;
                assert(rs[a] == r);
            }
            if r == rs.last() {
                assert(rs[rs.len() - 1] == r);
            }
        }
        assert(ledger_from(m, evs).dom() =~= m.dom() + rs.to_set());
    }
}

/// After `n` distinct downloads are started and `k` of them completed, the
/// pending set is exactly the `n - k` that were not completed.
pub proof fn lemma_pending_after_starts_and_completions(
    started: Seq<(Seq<char>, Seq<char>, Seq<char>)>,
    completed: Seq<(Seq<char>, Seq<char>, Seq<char>)>,
)
    requires
        started.no_duplicates(),
        completed.no_duplicates(),
        forall|i: int| 0 <= i < completed.len() ==> started.contains(#[trigger] completed[i]),
    ensures
        pending_set(starts_of(started) + completions_of(completed)) == started.to_set()
            - completed.to_set(),
        (started.to_set() - completed.to_set()).len() == started.len() - completed.len(),
{
    let e = Map::<(Seq<char>, Seq<char>, Seq<char>), bool>::empty();
    lemma_ledger_concat(e, starts_of(started), completions_of(completed));
    lemma_ledger_marks(e, started, false);
    let l1 = ledger_from(e, starts_of(started));
    lemma_ledger_marks(l1, completed, true);
    let l2 = ledger_from(l1, completions_of(completed));
    assert(e.dom() + started.to_set() =~= started.to_set());
    assert(l1.dom() =~= started.to_set());
    assert(ledger_from(e, starts_of(started) + completions_of(completed)) == l2);
    assert forall|r: (Seq<char>, Seq<char>, Seq<char>)|
        pending_set(starts_of(started) + completions_of(completed)).contains(r) <==> (
        started.to_set() - completed.to_set()).contains(r) by {
        if completed.contains(r) {
            let a = choose|a: int| 0 <= a < completed.len() && completed[a] == r;
            assert(started.contains(completed[a]));
            assert(l2.contains_key(r));
            assert(l2[r]);
        } else if started.contains(r) {
            assert(l1.contains_key(r));
            assert(!l1[r]);
            assert(l2.contains_key(r));
            assert(!l2[r]);
        } else {
            assert(!l1.contains_key(r));
            assert(!l2.contains_key(r));
        }
    }
    assert(pending_set(starts_of(started) + completions_of(completed)) =~= started.to_set()
        - completed.to_set());
    started.unique_seq_to_set();
    completed.unique_seq_to_set();
    assert(completed.to_set().subset_of(started.to_set())) by {
        assert forall|r| completed.to_set().contains(r) implies started.to_set().contains(r) by {
            let a = choose|a: int| 0 <= a < completed.len() && completed[a] == r;
            assert(started.contains(completed[a]));
        }
    }
    vstd::set_lib::lemma_len_difference(started.to_set(), completed.to_set());
    assert(started.to_set().intersect(completed.to_set()) =~= completed.to_set());
    vstd::set_lib::lemma_set_difference_len(started.to_set(), completed.to_set());
}

/// What `pending_downloads` returns after `n` distinct starts followed by
/// completions of `k` of them: exactly the `n - k` requests not completed,
/// each once.
pub proof fn lemma_pending_downloads_count(
    r: Seq<DownloadRequest>,
    started: Seq<(Seq<char>, Seq<char>, Seq<char>)>,
    completed: Seq<(Seq<char>, Seq<char>, Seq<char>)>,
)
    requires
        request_views(r).no_duplicates(),
        request_views(r).to_set() == pending_set(starts_of(started) + completions_of(completed)),
        started.no_duplicates(),
        completed.no_duplicates(),
        forall|i: int| 0 <= i < completed.len() ==> started.contains(#[trigger] completed[i]),
    ensures
        request_views(r).to_set() == started.to_set() - completed.to_set(),
        r.len() == started.len() - completed.len(),
{
    lemma_pending_after_starts_and_completions(started, completed);
    request_views(r).unique_seq_to_set();
}

/// The origin of every asset URL.
pub const CDN_URL: &'static str = "https://cdn.discordapp.com/";

/// The concatenation of `parts`.
pub open spec fn concat_all(parts: Seq<Seq<char>>) -> Seq<char>
    decreases parts.len(),
{
    if parts.len() == 0 {
        Seq::empty()
    } else {
        concat_all(parts.drop_last()) + parts.last()
    }
}

/// An asset URL: the CDN origin followed by `to_append`, joined as given.
pub fn append_cdn(to_append: &[&str]) -> (r: String)
    ensures
        r@ == CDN_URL@ + concat_all(strs_text(to_append@)),
{
    let mut r = String::from_str(CDN_URL);
    let n = to_append.len();
    let mut i: usize = 0;
    proof {
        assert(concat_all(strs_text(to_append@.subrange(0, 0))) =~= Seq::<char>::empty());
        assert(r@ =~= CDN_URL@ + Seq::<char>::empty());
    }
    while i < n
        invariant
            i <= n == to_append@.len(),
            r@ == CDN_URL@ + concat_all(strs_text(to_append@.subrange(0, i as int))),
        decreases n - i,
    {
        r.append(to_append[i]);
        proof {
            let next = strs_text(to_append@.subrange(0, i as int + 1));
            assert(next.drop_last() =~= strs_text(to_append@.subrange(0, i as int)));
            assert(next.last() == to_append@[i as int]@);
            assert(r@ =~= CDN_URL@ + concat_all(next));
        }
        i = i + 1;
    }
    proof {
        assert(to_append@.subrange(0, n as int) =~= to_append@);
    }
    r
}

/// Suffix of the file a download streams into before it is complete.
pub const PART_SUFFIX: &'static str = ".part";

/// Where a download ends up, and the file it is streamed into until then.
pub struct DownloadPaths {
    pub final_path: String,
    pub temp_path: String,
}

/// The final and temporary paths of a download of `filename` into `folder`.
/// The temporary file is the final one with `.part` appended, so that a
/// crash never leaves a partial file under the final name.
pub fn download_paths(folder: &str, filename: &str) -> (r: DownloadPaths)
    ensures
        r.final_path@ == push_component(folder@, filename@),
        r.temp_path@ == push_component(folder@, filename@ + PART_SUFFIX@),
        r.temp_path@ == r.final_path@ + PART_SUFFIX@,
{
    let mut final_path = String::from_str(folder);
    push_path(&mut final_path, filename);
    let temp_name = join2(filename, PART_SUFFIX);
    let mut temp_path = String::from_str(folder);
    push_path(&mut temp_path, temp_name.as_str());
    proof {
        if folder@.len() == 0 || folder@.last() == '/' {
            assert(folder@ + (filename@ + PART_SUFFIX@) =~= folder@ + filename@ + PART_SUFFIX@);
        } else {
            assert(folder@.push('/') + (filename@ + PART_SUFFIX@) =~= folder@.push('/') + filename@
                + PART_SUFFIX@);
        }
    }
    DownloadPaths { final_path, temp_path }
}

/// Whether a fetch is needed: a final file that exists with content is
/// taken as already downloaded; a missing or empty one is fetched again.
pub fn needs_fetch(existing_len: Option<u64>) -> (r: bool)
    ensures
        r == !(existing_len matches Some(n) && n > 0),
{
    match existing_len {
        Some(n) => n == 0,
        None => true,
    }
}

/// Whether an HTTP status is a success (2xx).
pub fn is_success_status(status: u16) -> (r: bool)
    ensures
        r == (200 <= status <= 299),
{
    200 <= status && status <= 299
}

/// What follows a finished download attempt.
pub struct Settlement {
    /// Record the download as complete in the ledger.
    pub log_complete: bool,
    /// Truncate the ledger: this was the last pending download.
    pub clear_ledger: bool,
}

/// After a download attempt: a success is recorded as complete (a failure
/// stays pending and is retried on the next launch), and the ledger is
/// cleared when the pending count, before it was decremented for this
/// attempt, was 1.
pub fn settle_download(succeeded: bool, previous_pending: usize) -> (r: Settlement)
    ensures
        r.log_complete == succeeded,
        r.clear_ledger == (previous_pending == 1),
{
    Settlement { log_complete: succeeded, clear_ledger: previous_pending == 1 }
}

} // verus!
