use vstd::prelude::*;

use crate::usage::{logs_view, summarize, summary_of, LogView, RequestLog, UsageSummary};
use crate::provider::{
    category_is, in_category, option_view, providers_view, same_text, Provider, ProviderView,
};

verus! {

/// One row of the provider table: the application a provider belongs to,
/// the provider itself, and whether it is the current OMO provider of its
/// category.
pub struct ProviderRecord {
    pub app_type: String,
    pub provider: Provider,
    pub omo_current: bool,
}

/// The mathematical value of a [`ProviderRecord`].
pub struct RecordView {
    pub app_type: Seq<char>,
    pub provider: ProviderView,
    pub omo_current: bool,
}

impl View for ProviderRecord {
    type V = RecordView;

    open spec fn view(&self) -> RecordView {
        RecordView {
            app_type: self.app_type@,
            provider: self.provider@,
            omo_current: self.omo_current,
        }
    }
}

/// Errors reported by the provider table.
#[derive(Clone, Copy, Debug, PartialEq, Eq, Structural)]
pub enum DbError {
    /// No provider of that application, with that identifier and that category.
    ProviderNotFound,
}

/// The records of the table, as a sequence of their views.
pub open spec fn records_view(rs: Seq<ProviderRecord>) -> Seq<RecordView> {
    rs.map_values(|r: ProviderRecord| r@)
}

/// Whether record `r` is the provider `id` of application `app`.
pub open spec fn is_key(r: RecordView, app: Seq<char>, id: Seq<char>) -> bool {
    r.app_type == app && r.provider.id == id
}

/// Whether record `r` is a provider of application `app` filed under `category`.
pub open spec fn in_app_category(r: RecordView, app: Seq<char>, category: Seq<char>) -> bool {
    r.app_type == app && in_category(r.provider, category)
}

/// Whether record `r` is a current OMO provider of `category` in application `app`.
pub open spec fn is_current_in(r: RecordView, app: Seq<char>, category: Seq<char>) -> bool {
    &&& r.app_type == app
    &&& in_category(r.provider, category)
    &&& r.omo_current
}

/// What the table keeps true: an application never holds two providers with
/// one identifier, a category of an application has at most one current OMO
/// provider, and only a provider with a category can be current.
pub open spec fn table_invariant(rs: Seq<RecordView>) -> bool {
    &&& forall|i: int, j: int|
        0 <= i < j < rs.len() ==> !(#[trigger] rs[i].app_type == #[trigger] rs[j].app_type
            && rs[i].provider.id == rs[j].provider.id)
    &&& forall|i: int, j: int|
        0 <= i < j < rs.len() && #[trigger] rs[i].omo_current && #[trigger] rs[j].omo_current
            ==> !(rs[i].app_type == rs[j].app_type && rs[i].provider.category
            == rs[j].provider.category)
    &&& forall|i: int| 0 <= i < rs.len() && #[trigger] rs[i].omo_current ==> rs[i].provider.category is Some
}

/// The providers of application `app`, in the order in which they were first saved.
pub open spec fn providers_of(rs: Seq<RecordView>, app: Seq<char>) -> Seq<ProviderView>
    decreases rs.len(),
{
    if rs.len() == 0 {
        Seq::empty()
    } else if rs.last().app_type == app {
        providers_of(rs.drop_last(), app).push(rs.last().provider)
    } else {
        providers_of(rs.drop_last(), app)
    }
}

/// Every provider of application `app` appears in `providers_of(rs, app)`.
pub proof fn lemma_providers_of_covers(rs: Seq<RecordView>, app: Seq<char>, i: int)
    requires
        0 <= i < rs.len(),
        rs[i].app_type == app,
    ensures
        exists|m: int|
            0 <= m < providers_of(rs, app).len() && #[trigger] providers_of(rs, app)[m]
                == rs[i].provider,
    decreases rs.len(),
{
    let prefix = providers_of(rs.drop_last(), app);
    if i == rs.len() - 1 {
        assert(providers_of(rs, app)[prefix.len() as int] == rs[i].provider);
    } else {
        lemma_providers_of_covers(rs.drop_last(), app, i);
        let m = choose|m: int| 0 <= m < prefix.len() && #[trigger] prefix[m] == rs.drop_last()[i].provider;
        assert(providers_of(rs, app)[m] == rs[i].provider);
    }
}

/// Whether application `app` has a current OMO provider in `category`.
pub open spec fn has_current(rs: Seq<RecordView>, app: Seq<char>, category: Seq<char>) -> bool {
    exists|i: int| 0 <= i < rs.len() && is_current_in(#[trigger] rs[i], app, category)
}

/// The current OMO provider of `category` in application `app`, if there is one.
pub open spec fn current_provider(rs: Seq<RecordView>, app: Seq<char>, category: Seq<char>) -> Option<
    ProviderView,
> {
    if has_current(rs, app, category) {
        let i = choose|i: int| 0 <= i < rs.len() && is_current_in(#[trigger] rs[i], app, category);
        Some(rs[i].provider)
    } else {
        None
    }
}

/// The record `r` after the OMO current flag of provider `id` in `category`
/// of application `app` has been cleared.
pub open spec fn cleared(r: RecordView, app: Seq<char>, id: Seq<char>, category: Seq<char>) -> RecordView {
    if is_key(r, app, id) && in_category(r.provider, category) {
        RecordView { omo_current: false, ..r }
    } else {
        r
    }
}

/// The record `r` after provider `id` has become the current OMO provider of
/// `category` in application `app`.
pub open spec fn made_current(r: RecordView, app: Seq<char>, id: Seq<char>, category: Seq<char>) -> RecordView {
    if r.app_type == app && in_category(r.provider, category) {
        RecordView { omo_current: r.provider.id == id, ..r }
    } else {
        r
    }
}

/// The record stored for provider `p` of application `app` when `old` held
/// that key before: the current flag survives only if the category is unchanged.
pub open spec fn resaved(old: RecordView, p: ProviderView) -> RecordView {
    RecordView {
        app_type: old.app_type,
        provider: p,
        omo_current: old.omo_current && old.provider.category == p.category,
    }
}

/// The index of the record of provider `id` in application `app`, if any.
pub open spec fn key_index(rs: Seq<RecordView>, app: Seq<char>, id: Seq<char>) -> Option<int> {
    if exists|i: int| 0 <= i < rs.len() && is_key(#[trigger] rs[i], app, id) {
        Some(choose|i: int| 0 <= i < rs.len() && is_key(#[trigger] rs[i], app, id))
    } else {
        None
    }
}

/// The table after provider `p` of application `app` has been saved.
pub open spec fn saved(rs: Seq<RecordView>, app: Seq<char>, p: ProviderView) -> Seq<RecordView> {
    match key_index(rs, app, p.id) {
        Some(i) => rs.update(i, resaved(rs[i], p)),
        None => rs.push(RecordView { app_type: app, provider: p, omo_current: false }),
    }
}

/// The application's store: its provider table and its log of proxied requests.
pub struct Database {
    records: Vec<ProviderRecord>,
    logs: Vec<RequestLog>,
}

impl View for Database {
    type V = Seq<RecordView>;

    closed spec fn view(&self) -> Seq<RecordView> {
        records_view(self.records@)
    }
}

impl Database {
    /// The logged requests, oldest first.
    pub closed spec fn request_logs(&self) -> Seq<LogView> {
        logs_view(self.logs@)
    }

    #[verifier::type_invariant]
    closed spec fn well_formed(self) -> bool {
        table_invariant(records_view(self.records@))
    }

    /// An empty store.
    pub fn new() -> (db: Database)
        ensures
            db@ == Seq::<RecordView>::empty(),
            db.request_logs() == Seq::<LogView>::empty(),
            table_invariant(db@),
    {
        let db = Database { records: Vec::new(), logs: Vec::new() };
        assert(db@ =~= Seq::<RecordView>::empty());
        assert(db.request_logs() =~= Seq::<LogView>::empty());
        db
    }

    /// Appends a request to the usage log.
    pub fn insert_request_log(&mut self, log: RequestLog)
        ensures
            final(self).request_logs() == old(self).request_logs().push(log@),
            final(self)@ == old(self)@,
    {
        proof {
            use_type_invariant(&*self);
        }
        let mut logs: Vec<RequestLog> = Vec::new();
        std::mem::swap(&mut logs, &mut self.logs);
        let ghost before = logs@;
        logs.push(log);
        assert(logs_view(logs@) =~= logs_view(before).push(log@));
        self.logs = logs;
    }

    /// Totals the logged requests made between `start` and `end` (Unix seconds,
    /// both inclusive; a missing bound leaves that side open).
    pub fn get_usage_summary(&self, start: Option<i64>, end: Option<i64>) -> (s: UsageSummary)
        ensures
            s@ == summary_of(self.request_logs(), start, end),
    {
        summarize(&self.logs, start, end)
    }

    /// The providers of application `app_type`, in the order in which they were first saved.
    pub fn get_all_providers(&self, app_type: &str) -> (r: Vec<Provider>)
        ensures
            providers_view(r@) == providers_of(self@, app_type@),
            table_invariant(self@),
    {
        proof {
            use_type_invariant(self);
        }
        let app = app_type.to_owned();
        let ghost rs = self@;
        let mut out: Vec<Provider> = Vec::new();
        let mut i: usize = 0;
        while i < self.records.len()
            invariant
                i <= self.records.len(),
                rs == records_view(self.records@),
                app@ == app_type@,
                providers_view(out@) == providers_of(rs.take(i as int), app@),
            decreases self.records.len() - i,
        {
            proof {
                assert(rs.take(i + 1).drop_last() =~= rs.take(i as int));
            }
            if same_text(&self.records[i].app_type, &app) {
                let p = self.records[i].provider.clone();
                let ghost before = out@;
                out.push(p);
                assert(providers_view(out@) =~= providers_view(before).push(p@));
            }
            i += 1;
        }
        assert(rs.take(i as int) =~= rs);
        out
    }

    /// The current OMO provider of `category` in application `app_type`, if any.
    pub fn get_current_omo_provider(&self, app_type: &str, category: &str) -> (r: Option<Provider>)
        ensures
            option_view(r) == current_provider(self@, app_type@, category@),
            table_invariant(self@),
    {
        proof {
            use_type_invariant(self);
        }
        let app = app_type.to_owned();
        let cat = category.to_owned();
        let ghost rs = self@;
        let mut i: usize = 0;
        while i < self.records.len()
            invariant
                i <= self.records.len(),
                rs == records_view(self.records@),
                app@ == app_type@,
                cat@ == category@,
                table_invariant(rs),
                forall|j: int| 0 <= j < i ==> !is_current_in(#[trigger] rs[j], app@, cat@),
            decreases self.records.len() - i,
        {
            let rec = &self.records[i];
            if rec.omo_current && same_text(&rec.app_type, &app) && category_is(
                &rec.provider.category,
                &cat,
            ) {
                proof {
                    assert(is_current_in(rs[i as int], app@, cat@));
                    let k = choose|k: int| 0 <= k < rs.len() && is_current_in(#[trigger] rs[k], app@, cat@);
                    if k != i {
                        assert(rs[k].omo_current && rs[i as int].omo_current);
                        if k < i {
                            assert(!is_current_in(rs[k], app@, cat@));
                        }
                    }
                }
                return Some(rec.provider.clone());
            }
            i += 1;
        }
        None
    }

    /// Clears the OMO current flag of provider `id` of application `app_type`,
    /// when that provider is filed under `category`; every other row stays as it was.
    pub fn clear_omo_provider_current(&mut self, app_type: &str, id: &str, category: &str)
        ensures
            final(self)@ == old(self)@.map_values(
                |r: RecordView| cleared(r, app_type@, id@, category@),
            ),
            table_invariant(final(self)@),
            final(self).request_logs() == old(self).request_logs(),
    {
        proof {
            use_type_invariant(&*self);
        }
        let app = app_type.to_owned();
        let pid = id.to_owned();
        let cat = category.to_owned();
        let mut recs: Vec<ProviderRecord> = Vec::new();
        std::mem::swap(&mut recs, &mut self.records);
        let ghost old_rs = records_view(recs@);
        let mut i: usize = 0;
        while i < recs.len()
            invariant
                i <= recs.len(),
                recs.len() == old_rs.len(),
                app@ == app_type@,
                pid@ == id@,
                cat@ == category@,
                forall|j: int|
                    0 <= j < i ==> #[trigger] records_view(recs@)[j] == cleared(
                        old_rs[j],
                        app@,
                        pid@,
                        cat@,
                    ),
                forall|j: int| i <= j < recs.len() ==> #[trigger] records_view(recs@)[j] == old_rs[j],
            decreases recs.len() - i,
        {
            let ghost prev = recs@;
            assert(records_view(prev)[i as int] == old_rs[i as int]);
            if same_text(&recs[i].app_type, &app) && same_text(&recs[i].provider.id, &pid)
                && category_is(&recs[i].provider.category, &cat) {
                recs[i].omo_current = false;
            }
            proof {
                assert(records_view(recs@) =~= records_view(prev).update(
                    i as int,
                    cleared(old_rs[i as int], app@, pid@, cat@),
                ));
            }
            i += 1;
        }
        proof {
            assert(records_view(recs@) =~= old_rs.map_values(
                |r: RecordView| cleared(r, app_type@, id@, category@),
            ));
        }
        self.records = recs;
    }

    /// Makes provider `id` of application `app_type` the current OMO provider of
    /// `category`, and every other provider of that category in that application
    /// no longer current. Fails, leaving the table unchanged, when that
    /// application has no provider `id` filed under `category`.
    pub fn set_omo_provider_current(&mut self, app_type: &str, id: &str, category: &str) -> (r:
        Result<(), DbError>)
        ensures
            r is Ok <==> exists|i: int|
                0 <= i < old(self)@.len() && is_key(#[trigger] old(self)@[i], app_type@, id@)
                    && in_category(old(self)@[i].provider, category@),
            r is Ok ==> final(self)@ == old(self)@.map_values(
                |r: RecordView| made_current(r, app_type@, id@, category@),
            ),
            r is Err ==> final(self)@ == old(self)@ && r == Err::<(), DbError>(
                DbError::ProviderNotFound,
            ),
            table_invariant(final(self)@),
            final(self).request_logs() == old(self).request_logs(),
    {
        proof {
            use_type_invariant(&*self);
        }
        let app = app_type.to_owned();
        let pid = id.to_owned();
        let cat = category.to_owned();
        let ghost rs = self@;
        let mut found = false;
        let mut k: usize = 0;
        while k < self.records.len()
            invariant_except_break
                !found,
            invariant
                k <= self.records.len(),
                rs == records_view(self.records@),
                app@ == app_type@,
                pid@ == id@,
                cat@ == category@,
                forall|j: int|
                    0 <= j < k ==> !(is_key(#[trigger] rs[j], app@, pid@) && in_category(
                        rs[j].provider,
                        cat@,
                    )),
            ensures
                found ==> k < rs.len() && is_key(rs[k as int], app@, pid@) && in_category(
                    rs[k as int].provider,
                    cat@,
                ),
                !found ==> forall|j: int|
                    0 <= j < rs.len() ==> !(is_key(#[trigger] rs[j], app@, pid@) && in_category(
                        rs[j].provider,
                        cat@,
                    )),
            decreases self.records.len() - k,
        {
            let rec = &self.records[k];
            if same_text(&rec.app_type, &app) && same_text(&rec.provider.id, &pid) && category_is(
                &rec.provider.category,
                &cat,
            ) {
                found = true;
                break;
            }
            k += 1;
        }
        if !found {
            return Err(DbError::ProviderNotFound);
        }
        let mut recs: Vec<ProviderRecord> = Vec::new();
        std::mem::swap(&mut recs, &mut self.records);
        let ghost old_rs = records_view(recs@);
        let mut i: usize = 0;
        while i < recs.len()
            invariant
                i <= recs.len(),
                recs.len() == old_rs.len(),
                app@ == app_type@,
                pid@ == id@,
                cat@ == category@,
                forall|j: int|
                    0 <= j < i ==> #[trigger] records_view(recs@)[j] == made_current(
                        old_rs[j],
                        app@,
                        pid@,
                        cat@,
                    ),
                forall|j: int| i <= j < recs.len() ==> #[trigger] records_view(recs@)[j] == old_rs[j],
            decreases recs.len() - i,
        {
            let ghost prev = recs@;
            assert(records_view(prev)[i as int] == old_rs[i as int]);
            if same_text(&recs[i].app_type, &app) && category_is(&recs[i].provider.category, &cat) {
                let is_it = same_text(&recs[i].provider.id, &pid);
                recs[i].omo_current = is_it;
            }
            proof {
                assert(records_view(recs@) =~= records_view(prev).update(
                    i as int,
                    made_current(old_rs[i as int], app@, pid@, cat@),
                ));
            }
            i += 1;
        }
        proof {
            let new_rs = records_view(recs@);
            assert(new_rs =~= old_rs.map_values(
                |r: RecordView| made_current(r, app_type@, id@, category@),
            ));
            assert forall|a: int, b: int|
                0 <= a < b < new_rs.len() && #[trigger] new_rs[a].omo_current
                    && #[trigger] new_rs[b].omo_current implies !(new_rs[a].app_type
                == new_rs[b].app_type && new_rs[a].provider.category == new_rs[b].provider.category) by {
                assert(old_rs[a].app_type == old_rs[b].app_type ==> old_rs[a].provider.id
                    != old_rs[b].provider.id);
                assert(old_rs[a].omo_current && old_rs[b].omo_current ==> !(old_rs[a].app_type
                    == old_rs[b].app_type && old_rs[a].provider.category
                    == old_rs[b].provider.category));
            }
        }
        self.records = recs;
        Ok(())
    }

    /// Saves `provider` for application `app_type`. A provider with the same
    /// identifier is replaced in place, keeping its current flag only when its
    /// category is unchanged; a new provider is appended, not current.
    pub fn save_provider(&mut self, app_type: &str, provider: Provider)
        ensures
            final(self)@ == saved(old(self)@, app_type@, provider@),
            table_invariant(final(self)@),
            final(self).request_logs() == old(self).request_logs(),
    {
        proof {
            use_type_invariant(&*self);
        }
        let app = app_type.to_owned();
        let ghost rs = self@;
        let mut found = false;
        let mut k: usize = 0;
        while k < self.records.len()
            invariant_except_break
                !found,
            invariant
                k <= self.records.len(),
                rs == records_view(self.records@),
                app@ == app_type@,
                forall|j: int| 0 <= j < k ==> !is_key(#[trigger] rs[j], app@, provider@.id),
            ensures
                found ==> k < rs.len() && is_key(rs[k as int], app@, provider@.id),
                !found ==> forall|j: int| 0 <= j < rs.len() ==> !is_key(#[trigger] rs[j], app@, provider@.id),
            decreases self.records.len() - k,
        {
            let rec = &self.records[k];
            if same_text(&rec.app_type, &app) && same_text(&rec.provider.id, &provider.id) {
                found = true;
                break;
            }
            k += 1;
        }
        let mut recs: Vec<ProviderRecord> = Vec::new();
        std::mem::swap(&mut recs, &mut self.records);
        if found {
            let keep = recs[k].omo_current && match (&recs[k].provider.category, &provider.category) {
                (Some(a), Some(b)) => same_text(a, b),
                (None, None) => true,
                _ => false,
            };
            let ghost prev = recs@;
            let rec = ProviderRecord { app_type: app, provider, omo_current: keep };
            recs.set(k, rec);
            proof {
                let i = choose|i: int| 0 <= i < rs.len() && is_key(#[trigger] rs[i], app_type@, provider@.id);
                if i != k {
                    if i < k {
                        assert(rs[i].app_type == rs[k as int].app_type);
                    } else {
                        assert(rs[k as int].app_type == rs[i].app_type);
                    }
                }
                assert(key_index(rs, app_type@, provider@.id) == Some(k as int));
                assert(records_view(recs@) =~= rs.update(k as int, resaved(rs[k as int], provider@)));
            }
        } else {
            let ghost prev = recs@;
            let rec = ProviderRecord { app_type: app, provider, omo_current: false };
            recs.push(rec);
            proof {
                assert(key_index(rs, app_type@, provider@.id) is None);
                assert(records_view(recs@) =~= rs.push(
                    RecordView { app_type: app_type@, provider: provider@, omo_current: false },
                ));
            }
        }
        self.records = recs;
    }
}

/// The current OMO provider of a category is found again at any index that holds it.
pub proof fn lemma_current_at(rs: Seq<RecordView>, app: Seq<char>, category: Seq<char>, i: int)
    requires
        table_invariant(rs),
        0 <= i < rs.len(),
        is_current_in(rs[i], app, category),
    ensures
        current_provider(rs, app, category) == Some(rs[i].provider),
{
    let k = choose|k: int| 0 <= k < rs.len() && is_current_in(#[trigger] rs[k], app, category);
    if k != i {
        assert(rs[k].omo_current && rs[i].omo_current);
    }
}

/// A change that keeps every row's application and provider keeps the
/// provider list of every application.
pub proof fn lemma_same_rows_same_providers(rs: Seq<RecordView>, ts: Seq<RecordView>, app: Seq<char>)
    requires
        rs.len() == ts.len(),
        forall|i: int|
            0 <= i < rs.len() ==> #[trigger] ts[i].app_type == rs[i].app_type && ts[i].provider
                == rs[i].provider,
    ensures
        providers_of(ts, app) == providers_of(rs, app),
    decreases rs.len(),
{
    if rs.len() > 0 {
        assert(ts.last().app_type == rs.last().app_type);
        lemma_same_rows_same_providers(rs.drop_last(), ts.drop_last(), app);
    }
}

/// Read after write: once provider `id` has been made the current OMO provider
/// of `category` in application `app`, it is the current provider found there.
pub proof fn law_current_after_set(
    rs: Seq<RecordView>,
    app: Seq<char>,
    id: Seq<char>,
    category: Seq<char>,
    i: int,
)
    requires
        table_invariant(rs),
        0 <= i < rs.len(),
        is_key(rs[i], app, id),
        in_category(rs[i].provider, category),
    ensures
        current_provider(
            rs.map_values(|r: RecordView| made_current(r, app, id, category)),
            app,
            category,
        ) == Some(rs[i].provider),
{
    let ts = rs.map_values(|r: RecordView| made_current(r, app, id, category));
    assert(is_current_in(ts[i], app, category));
    assert forall|a: int, b: int|
        0 <= a < b < ts.len() && #[trigger] ts[a].omo_current && #[trigger] ts[b].omo_current
            implies !(ts[a].app_type == ts[b].app_type && ts[a].provider.category
        == ts[b].provider.category) by {
        assert(rs[a].app_type == rs[b].app_type ==> rs[a].provider.id != rs[b].provider.id);
        assert(rs[a].omo_current && rs[b].omo_current ==> !(rs[a].app_type == rs[b].app_type
            && rs[a].provider.category == rs[b].provider.category));
    }
    assert(table_invariant(ts));
    lemma_current_at(ts, app, category, i);
}

/// Clearing the current OMO provider of a category leaves the category without
/// one; clearing any other provider leaves the current provider as it was.
pub proof fn law_current_after_clear(
    rs: Seq<RecordView>,
    app: Seq<char>,
    id: Seq<char>,
    category: Seq<char>,
)
    requires
        table_invariant(rs),
    ensures
        current_provider(
            rs.map_values(|r: RecordView| cleared(r, app, id, category)),
            app,
            category,
        ) == match current_provider(rs, app, category) {
            Some(p) => if p.id == id {
                None
            } else {
                Some(p)
            },
            None => None,
        },
{
    let ts = rs.map_values(|r: RecordView| cleared(r, app, id, category));
    if has_current(rs, app, category) {
        let k = choose|k: int| 0 <= k < rs.len() && is_current_in(#[trigger] rs[k], app, category);
        lemma_current_at(rs, app, category, k);
        if rs[k].provider.id == id {
            assert forall|j: int| 0 <= j < ts.len() implies !is_current_in(#[trigger] ts[j], app, category) by {
                if is_current_in(ts[j], app, category) {
                    assert(is_current_in(rs[j], app, category));
                    if j != k {
                        assert(rs[j].omo_current && rs[k].omo_current);
                    }
                }
            }
        } else {
            assert(is_current_in(ts[k], app, category));
            assert(table_invariant(ts));
            lemma_current_at(ts, app, category, k);
        }
    } else {
        assert forall|j: int| 0 <= j < ts.len() implies !is_current_in(#[trigger] ts[j], app, category) by {
            if is_current_in(ts[j], app, category) {
                assert(is_current_in(rs[j], app, category));
            }
        }
    }
}

/// Saving a provider under an identifier that application `app` does not hold
/// yet appends it to that application's provider list; saving under a held
/// identifier replaces that provider in place.
pub proof fn law_providers_after_save(rs: Seq<RecordView>, app: Seq<char>, p: ProviderView)
    requires
        table_invariant(rs),
    ensures
        key_index(rs, app, p.id) is None ==> providers_of(saved(rs, app, p), app) == providers_of(
            rs,
            app,
        ).push(p),
        key_index(rs, app, p.id) is Some ==> providers_of(saved(rs, app, p), app).len()
            == providers_of(rs, app).len(),
        exists|m: int|
            0 <= m < providers_of(saved(rs, app, p), app).len() && #[trigger] providers_of(
                saved(rs, app, p),
                app,
            )[m] == p,
{
    let ts = saved(rs, app, p);
    match key_index(rs, app, p.id) {
        Some(i) => {
            assert(0 <= i < rs.len() && is_key(rs[i], app, p.id));
            lemma_providers_of_update_len(rs, app, i, resaved(rs[i], p));
            lemma_providers_of_covers(ts, app, i);
        },
        None => {
            assert(ts.drop_last() =~= rs);
            lemma_providers_of_covers(ts, app, rs.len() as int);
        },
    }
}

/// Replacing one row by another of the same application keeps the length of
/// that application's provider list.
pub proof fn lemma_providers_of_update_len(rs: Seq<RecordView>, app: Seq<char>, i: int, r: RecordView)
    requires
        0 <= i < rs.len(),
        r.app_type == rs[i].app_type,
    ensures
        providers_of(rs.update(i, r), app).len() == providers_of(rs, app).len(),
    decreases rs.len(),
{
    let ts = rs.update(i, r);
    if i == rs.len() - 1 {
        assert(ts.drop_last() =~= rs.drop_last());
    } else {
        assert(ts.drop_last() =~= rs.drop_last().update(i, r));
        lemma_providers_of_update_len(rs.drop_last(), app, i, r);
    }
}

/// Making a provider current in one category of one application changes the
/// current provider of no other category and of no other application.
pub proof fn law_set_keeps_other_categories(
    rs: Seq<RecordView>,
    app: Seq<char>,
    id: Seq<char>,
    category: Seq<char>,
    app2: Seq<char>,
    category2: Seq<char>,
)
    requires
        table_invariant(rs),
        !(app2 == app && category2 == category),
    ensures
        current_provider(
            rs.map_values(|r: RecordView| made_current(r, app, id, category)),
            app2,
            category2,
        ) == current_provider(rs, app2, category2),
{
    let ts = rs.map_values(|r: RecordView| made_current(r, app, id, category));
    assert forall|j: int| 0 <= j < ts.len() implies (is_current_in(#[trigger] ts[j], app2, category2)
        <==> is_current_in(rs[j], app2, category2)) by {}
    assert forall|a: int, b: int|
        0 <= a < b < ts.len() && #[trigger] ts[a].omo_current && #[trigger] ts[b].omo_current
            implies !(ts[a].app_type == ts[b].app_type && ts[a].provider.category
        == ts[b].provider.category) by {
        assert(rs[a].app_type == rs[b].app_type ==> rs[a].provider.id != rs[b].provider.id);
        assert(rs[a].omo_current && rs[b].omo_current ==> !(rs[a].app_type == rs[b].app_type
            && rs[a].provider.category == rs[b].provider.category));
    }
    assert(table_invariant(ts));
    if has_current(rs, app2, category2) {
        let k = choose|k: int| 0 <= k < rs.len() && is_current_in(#[trigger] rs[k], app2, category2);
        lemma_current_at(rs, app2, category2, k);
        lemma_current_at(ts, app2, category2, k);
    } else {
        assert(!has_current(ts, app2, category2));
    }
}

/// Saving a provider leaves every row of another provider exactly as it was,
/// its current flag included, and adds no row before the end.
pub proof fn law_save_keeps_other_rows(rs: Seq<RecordView>, app: Seq<char>, p: ProviderView, j: int)
    requires
        0 <= j < rs.len(),
        !is_key(rs[j], app, p.id),
    ensures
        saved(rs, app, p).len() >= rs.len(),
        saved(rs, app, p)[j] == rs[j],
{
    match key_index(rs, app, p.id) {
        Some(i) => {
            assert(is_key(rs[i], app, p.id));
        },
        None => {},
    }
}

/// Saving a provider changes the current OMO provider of no category, except
/// that a current provider re-saved under another category stops being current.
pub proof fn law_save_keeps_current(
    rs: Seq<RecordView>,
    app: Seq<char>,
    p: ProviderView,
    app2: Seq<char>,
    category: Seq<char>,
)
    requires
        table_invariant(rs),
        app2 == app && current_provider(rs, app2, category) is Some ==> current_provider(
            rs,
            app2,
            category,
        ).unwrap().id != p.id,
    ensures
        current_provider(saved(rs, app, p), app2, category) == current_provider(rs, app2, category),
{
    let ts = saved(rs, app, p);
    match key_index(rs, app, p.id) {
        Some(i) => {
            assert(is_key(rs[i], app, p.id));
            assert forall|a: int, b: int|
                0 <= a < b < ts.len() && #[trigger] ts[a].omo_current && #[trigger] ts[b].omo_current
                    implies !(ts[a].app_type == ts[b].app_type && ts[a].provider.category
                == ts[b].provider.category) by {
                assert(rs[a].omo_current && rs[b].omo_current);
            }
            assert forall|x: int, y: int|
                0 <= x < y < ts.len() implies !(#[trigger] ts[x].app_type == #[trigger] ts[y].app_type
                && ts[x].provider.id == ts[y].provider.id) by {
                assert(!(rs[x].app_type == rs[y].app_type && rs[x].provider.id == rs[y].provider.id));
            }
            assert(table_invariant(ts));
            if has_current(rs, app2, category) {
                let k = choose|k: int| 0 <= k < rs.len() && is_current_in(#[trigger] rs[k], app2, category);
                lemma_current_at(rs, app2, category, k);
                if k == i {
                    assert(false);
                }
                assert(is_current_in(ts[k], app2, category));
                lemma_current_at(ts, app2, category, k);
            } else {
                assert forall|j: int| 0 <= j < ts.len() implies !is_current_in(#[trigger] ts[j], app2, category) by {
                    if j == i && is_current_in(ts[j], app2, category) {
                        assert(is_current_in(rs[j], app2, category));
                    }
                }
            }
        },
        None => {
            assert(ts.drop_last() =~= rs);
            assert forall|a: int, b: int|
                0 <= a < b < ts.len() && #[trigger] ts[a].omo_current && #[trigger] ts[b].omo_current
                    implies !(ts[a].app_type == ts[b].app_type && ts[a].provider.category
                == ts[b].provider.category) by {
                assert(b < rs.len());
                assert(rs[a].omo_current && rs[b].omo_current);
            }
            assert forall|x: int, y: int|
                0 <= x < y < ts.len() implies !(#[trigger] ts[x].app_type == #[trigger] ts[y].app_type
                && ts[x].provider.id == ts[y].provider.id) by {
                if y < rs.len() {
                    assert(!(rs[x].app_type == rs[y].app_type && rs[x].provider.id == rs[y].provider.id));
                } else {
                    assert(!is_key(rs[x], app, p.id));
                }
            }
            assert(table_invariant(ts));
            if has_current(rs, app2, category) {
                let k = choose|k: int| 0 <= k < rs.len() && is_current_in(#[trigger] rs[k], app2, category);
                lemma_current_at(rs, app2, category, k);
                assert(is_current_in(ts[k], app2, category));
                lemma_current_at(ts, app2, category, k);
            } else {
                assert forall|j: int| 0 <= j < ts.len() implies !is_current_in(#[trigger] ts[j], app2, category) by {
                    if j < rs.len() && is_current_in(ts[j], app2, category) {
                        assert(is_current_in(rs[j], app2, category));
                    }
                }
            }
        },
    }
}

} // verus!
