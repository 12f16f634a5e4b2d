use vstd::prelude::*;

use crate::database::{
    current_provider, has_current, in_app_category, is_current_in, is_key, lemma_current_at,
    lemma_providers_of_covers, lemma_same_rows_same_providers, law_current_after_set, made_current,
    providers_of, table_invariant, Database, RecordView,
};
use crate::provider::{in_category, providers_view, same_text, category_is, ProviderView};

verus! {

/// The two flavours of the oh-my-opencode integration.
#[derive(Clone, Copy, Debug, PartialEq, Eq, Structural)]
pub enum OmoVariant {
    Standard,
    Slim,
}

/// The standard oh-my-opencode variant.
pub const STANDARD: OmoVariant = OmoVariant::Standard;

/// The slim oh-my-opencode variant.
pub const SLIM: OmoVariant = OmoVariant::Slim;

/// The application under which OMO providers are stored.
pub open spec fn opencode_app() -> Seq<char> {
    "opencode"@
}

/// The provider category that a variant manages.
pub open spec fn variant_category(v: OmoVariant) -> Seq<char> {
    match v {
        OmoVariant::Standard => "omo"@,
        OmoVariant::Slim => "omo-slim"@,
    }
}

/// The name of the configuration file that a variant writes.
pub open spec fn variant_config_file_name(v: OmoVariant) -> Seq<char> {
    match v {
        OmoVariant::Standard => "oh-my-opencode.jsonc"@,
        OmoVariant::Slim => "oh-my-opencode-slim.jsonc"@,
    }
}

/// The variant whose configuration a category governs: the standard one for
/// the standard category, the slim one for any other.
pub open spec fn variant_for_category_spec(category: Seq<char>) -> OmoVariant {
    if category == variant_category(OmoVariant::Standard) {
        OmoVariant::Standard
    } else {
        OmoVariant::Slim
    }
}

impl OmoVariant {
    /// The provider category under which providers of this variant are stored.
    pub fn category(&self) -> (r: &'static str)
        ensures
            r@ == variant_category(*self),
    {
        match self {
            OmoVariant::Standard => "omo",
            OmoVariant::Slim => "omo-slim",
        }
    }

    /// The file name of this variant's configuration.
    pub fn config_file_name(&self) -> (r: &'static str)
        ensures
            r@ == variant_config_file_name(*self),
    {
        match self {
            OmoVariant::Standard => "oh-my-opencode.jsonc",
            OmoVariant::Slim => "oh-my-opencode-slim.jsonc",
        }
    }
}

/// The variant whose configuration file belongs to `category`.
pub fn variant_for_category(category: &str) -> (v: OmoVariant)
    ensures
        v == variant_for_category_spec(category@),
{
    let standard = STANDARD.category().to_owned();
    let cat = category.to_owned();
    if same_text(&cat, &standard) {
        OmoVariant::Standard
    } else {
        OmoVariant::Slim
    }
}

#[verifier::external_type_specification]
#[verifier::external_body]
pub struct ExJsonValue(serde_json::Value);

/// Whether `text` is a well-formed JSON document, as `serde_json` reads it.
pub uninterp spec fn config_parses(text: Seq<char>) -> bool;

/// The member `key` of the JSON document `text`: what `serde_json` gives for
/// that member when `text` parses to an object holding it, and nothing otherwise.
pub uninterp spec fn config_member_value(text: Seq<char>, key: Seq<char>) -> Option<serde_json::Value>;

/// Parses `text` with `serde_json::from_str` into a `serde_json::Value` and
/// takes a copy of its member `key` with `serde_json::Value::get`. The contract
/// claims that parsing succeeds exactly on the texts that `config_parses`
/// names, and that the member returned is `config_member_value` of the text and
/// the key: both are functions of the text and the key alone (the parse is
/// deterministic, and `get` answers nothing on anything but an object). The
/// wording of the parse error is left unsaid.
#[verifier::external_body]
pub fn config_member(text: &str, key: &str) -> (r: Result<Option<serde_json::Value>, String>)
    ensures
        r is Ok <==> config_parses(text@),
        r matches Ok(m) ==> m == config_member_value(text@, key@),
{
    match serde_json::from_str::<serde_json::Value>(text) {
        Ok(value) => Ok(value.get(key).cloned()),
        Err(e) => Err(e.to_string()),
    }
}

/// The contents of an OMO configuration file that the front end is shown: where
/// the file is, and its `agents` and `categories` sections when present.
pub struct OmoLocalFileData {
    pub file_path: String,
    pub agents: Option<serde_json::Value>,
    pub categories: Option<serde_json::Value>,
}

/// Builds the data of the OMO configuration file at `file_path` whose text is
/// `text`. Fails exactly when the text is not a JSON document.
pub fn omo_local_file_data(file_path: String, text: &str) -> (r: Result<OmoLocalFileData, String>)
    ensures
        r is Ok <==> config_parses(text@),
        r matches Ok(d) ==> {
            &&& d.file_path@ == file_path@
            &&& d.agents == config_member_value(text@, "agents"@)
            &&& d.categories == config_member_value(text@, "categories"@)
        },
{
    let agents = config_member(text, "agents")?;
    let categories = config_member(text, "categories")?;
    Ok(OmoLocalFileData { file_path, agents, categories })
}

/// The application state that the OMO commands work on.
pub struct AppState {
    pub db: Database,
}

impl AppState {
    /// Wraps a provider table.
    pub fn new(db: Database) -> (s: AppState)
        ensures
            s.db == db,
    {
        AppState { db }
    }
}

/// The identifier of the current OMO provider of `category`, or the empty
/// text when the category has none.
pub open spec fn current_id_spec(rs: Seq<RecordView>, category: Seq<char>) -> Seq<char> {
    match current_provider(rs, opencode_app(), category) {
        Some(p) => p.id,
        None => Seq::empty(),
    }
}

/// The table after every provider of `category` in the opencode application
/// has stopped being the current OMO provider.
pub open spec fn omo_disabled(rs: Seq<RecordView>, category: Seq<char>) -> Seq<RecordView> {
    rs.map_values(
        |r: RecordView|
            if in_app_category(r, opencode_app(), category) {
                RecordView { omo_current: false, ..r }
            } else {
                r
            },
    )
}

/// Reads the current OMO provider of `category` in the opencode application and
/// answers its identifier, or the empty text when there is none.
fn get_current_omo_provider_id_internal(state: &AppState, category: &str) -> (id: String)
    ensures
        id@ == current_id_spec(state.db@, category@),
{
    let provider = state.db.get_current_omo_provider("opencode", category);
    match provider {
        Some(p) => p.id,
        None => String::new(),
    }
}

/// Whether one of the first `j` providers of `ps` has identifier `id` and is
/// filed under `category`.
pub open spec fn listed_before(ps: Seq<ProviderView>, j: int, id: Seq<char>, category: Seq<char>) -> bool {
    exists|m: int| 0 <= m < j && #[trigger] ps[m].id == id && in_category(ps[m], category)
}

/// Walks the opencode providers and clears the OMO current flag of each one
/// filed under `category`, then names the variant whose configuration file
/// goes with that category.
fn disable_current_omo_internal(state: &mut AppState, category: &str) -> (v: OmoVariant)
    ensures
        final(state).db@ == omo_disabled(old(state).db@, category@),
        final(state).db.request_logs() == old(state).db.request_logs(),
        table_invariant(final(state).db@),
        v == variant_for_category_spec(category@),
{
    let cat = category.to_owned();
    let providers = state.db.get_all_providers("opencode");
    let ghost rs = state.db@;
    let ghost ps = providers_view(providers@);
    let mut j: usize = 0;
    while j < providers.len()
        invariant
            j <= providers.len(),
            ps == providers_view(providers@),
            ps == providers_of(rs, opencode_app()),
            cat@ == category@,
            table_invariant(state.db@),
            state.db.request_logs() == old(state).db.request_logs(),
            state.db@ == rs.map_values(
                |r: RecordView|
                    if in_app_category(r, opencode_app(), category@) && listed_before(
                        ps,
                        j as int,
                        r.provider.id,
                        category@,
                    ) {
                        RecordView { omo_current: false, ..r }
                    } else {
                        r
                    },
            ),
        decreases providers.len() - j,
    {
        let ghost before = state.db@;
        if category_is(&providers[j].category, &cat) {
            state.db.clear_omo_provider_current("opencode", providers[j].id.as_str(), category);
        }
        proof {
            assert(ps[j as int] == providers[j as int]@);
            assert(state.db@ =~= rs.map_values(
                |r: RecordView|
                    if in_app_category(r, opencode_app(), category@) && listed_before(
                        ps,
                        j + 1,
                        r.provider.id,
                        category@,
                    ) {
                        RecordView { omo_current: false, ..r }
                    } else {
                        r
                    },
            )) by {
                assert forall|k: int| 0 <= k < rs.len() implies listed_before(
                    ps,
                    j + 1,
                    rs[k].provider.id,
                    category@,
                ) == (listed_before(ps, j as int, rs[k].provider.id, category@) || (
                ps[j as int].id == rs[k].provider.id && in_category(ps[j as int], category@))) by {
                    if ps[j as int].id == rs[k].provider.id && in_category(ps[j as int], category@) {
                        assert(listed_before(ps, j + 1, rs[k].provider.id, category@));
                    }
                    if listed_before(ps, j + 1, rs[k].provider.id, category@) {
                        let m = choose|m: int|
                            0 <= m < j + 1 && #[trigger] ps[m].id == rs[k].provider.id
                                && in_category(ps[m], category@);
                        if m < j {
                            assert(listed_before(ps, j as int, rs[k].provider.id, category@));
                        }
                    }
                }
            }
        }
        j += 1;
    }
    proof {
        assert(state.db@ =~= omo_disabled(rs, category@)) by {
            assert forall|k: int| 0 <= k < rs.len() && in_app_category(rs[k], opencode_app(), category@)
                implies listed_before(ps, j as int, rs[k].provider.id, category@) by {
                lemma_providers_of_covers(rs, opencode_app(), k);
                let m = choose|m: int|
                    0 <= m < ps.len() && #[trigger] ps[m] == rs[k].provider;
                assert(ps[m].id == rs[k].provider.id);
            }
        }
    }
    variant_for_category(category)
}

/// The identifier of the current OMO provider of `category`, or the empty
/// text when that category has none.
pub fn get_current_omo_provider_id_test_hook(state: &AppState, category: &str) -> (id: String)
    ensures
        id@ == current_id_spec(state.db@, category@),
{
    get_current_omo_provider_id_internal(state, category)
}

/// Stops every provider of `category` from being the current OMO provider,
/// and names the variant whose configuration file is to be removed next.
pub fn disable_current_omo_test_hook(state: &mut AppState, category: &str) -> (v: OmoVariant)
    ensures
        final(state).db@ == omo_disabled(old(state).db@, category@),
        final(state).db.request_logs() == old(state).db.request_logs(),
        table_invariant(final(state).db@),
        v == variant_for_category_spec(category@),
{
    disable_current_omo_internal(state, category)
}

/// The identifier of the current standard OMO provider, or the empty text.
pub fn get_current_omo_provider_id(state: &AppState) -> (id: String)
    ensures
        id@ == current_id_spec(state.db@, variant_category(OmoVariant::Standard)),
{
    get_current_omo_provider_id_internal(state, "omo")
}

/// The identifier of the current slim OMO provider, or the empty text.
pub fn get_current_omo_slim_provider_id(state: &AppState) -> (id: String)
    ensures
        id@ == current_id_spec(state.db@, variant_category(OmoVariant::Slim)),
{
    get_current_omo_provider_id_internal(state, SLIM.category())
}

/// Disables the current standard OMO provider; the standard configuration
/// file is the one to remove next.
pub fn disable_current_omo(state: &mut AppState) -> (v: OmoVariant)
    ensures
        final(state).db@ == omo_disabled(old(state).db@, variant_category(OmoVariant::Standard)),
        final(state).db.request_logs() == old(state).db.request_logs(),
        table_invariant(final(state).db@),
        v == OmoVariant::Standard,
{
    disable_current_omo_internal(state, STANDARD.category())
}

/// Disables the current slim OMO provider; the slim configuration file is the
/// one to remove next.
pub fn disable_current_omo_slim(state: &mut AppState) -> (v: OmoVariant)
    ensures
        final(state).db@ == omo_disabled(old(state).db@, variant_category(OmoVariant::Slim)),
        final(state).db.request_logs() == old(state).db.request_logs(),
        table_invariant(final(state).db@),
        v == OmoVariant::Slim,
{
    proof {
        reveal_strlit("omo");
        reveal_strlit("omo-slim");
        assert("omo"@.len() != "omo-slim"@.len());
    }
    disable_current_omo_internal(state, SLIM.category())
}

/// After the OMO providers of a category are disabled, that category has no
/// current provider, so its current provider identifier reads as empty.
pub proof fn law_disable_then_no_current(rs: Seq<RecordView>, category: Seq<char>)
    ensures
        current_provider(omo_disabled(rs, category), opencode_app(), category) is None,
        current_id_spec(omo_disabled(rs, category), category) == Seq::<char>::empty(),
{
    let ts = omo_disabled(rs, category);
    assert forall|j: int| 0 <= j < ts.len() implies !is_current_in(
        #[trigger] ts[j],
        opencode_app(),
        category,
    ) by {}
}

/// Disabling the OMO providers of one category changes the current provider of
/// no other category and of no other application.
pub proof fn law_disable_keeps_other_categories(
    rs: Seq<RecordView>,
    category: Seq<char>,
    app: Seq<char>,
    other: Seq<char>,
)
    requires
        table_invariant(rs),
        !(app == opencode_app() && other == category),
    ensures
        current_provider(omo_disabled(rs, category), app, other) == current_provider(rs, app, other),
{
    let ts = omo_disabled(rs, category);
    assert forall|j: int| 0 <= j < ts.len() implies (is_current_in(#[trigger] ts[j], app, other)
        <==> is_current_in(rs[j], app, other)) by {}
    assert(table_invariant(ts));
    if has_current(rs, app, other) {
        let k = choose|k: int| 0 <= k < rs.len() && is_current_in(#[trigger] rs[k], app, other);
        lemma_current_at(rs, app, other, k);
        lemma_current_at(ts, app, other, k);
    } else {
        assert(!has_current(ts, app, other));
    }
}

/// Disabling twice is the same as disabling once.
pub proof fn law_disable_idempotent(rs: Seq<RecordView>, category: Seq<char>)
    ensures
        omo_disabled(omo_disabled(rs, category), category) == omo_disabled(rs, category),
{
    assert(omo_disabled(omo_disabled(rs, category), category) =~= omo_disabled(rs, category));
}

/// Disabling only clears flags: every application keeps its provider list.
pub proof fn law_disable_keeps_providers(rs: Seq<RecordView>, category: Seq<char>, app: Seq<char>)
    ensures
        providers_of(omo_disabled(rs, category), app) == providers_of(rs, app),
        table_invariant(rs) ==> table_invariant(omo_disabled(rs, category)),
{
    lemma_same_rows_same_providers(rs, omo_disabled(rs, category), app);
}

/// Each variant's category leads back to that variant.
pub proof fn law_variant_round_trip(v: OmoVariant)
    ensures
        variant_for_category_spec(variant_category(v)) == v,
{
    reveal_strlit("omo");
    reveal_strlit("omo-slim");
    assert("omo"@.len() != "omo-slim"@.len());
}

/// Once provider `id` of the opencode application has been made the current
/// OMO provider of `category`, the current provider identifier of that
/// category reads as `id`.
pub proof fn law_current_id_after_set(rs: Seq<RecordView>, id: Seq<char>, category: Seq<char>, i: int)
    requires
        table_invariant(rs),
        0 <= i < rs.len(),
        is_key(rs[i], opencode_app(), id),
        crate::provider::in_category(rs[i].provider, category),
    ensures
        current_id_spec(
            rs.map_values(|r: RecordView| made_current(r, opencode_app(), id, category)),
            category,
        ) == id,
{
    law_current_after_set(rs, opencode_app(), id, category, i);
}

} // verus!
