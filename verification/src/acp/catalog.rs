//! The catalogs that a client renders its pickers from.
use vstd::prelude::*;

use crate::text::{
    cat3, chars_of, is_space, law_leading_run_is_dropped, law_trimming_leaves_the_text,
    law_white_space, list_has, oview, strip_leading, trim, trim_start_of, trimmed, views,
};

verus! {

/// A slash command.
pub struct Command {
    pub name: String,
    pub description: String,
}

pub open spec fn command_views(v: Seq<Command>) -> Seq<(Seq<char>, Seq<char>)> {
    v.map_values(|c: Command| (c.name@, c.description@))
}

/// A command's name as the client takes it: without a leading slash.
pub open spec fn client_name(name: Seq<char>) -> Seq<char> {
    trim_start_of(trimmed(name), '/')
}

/// Whether a name is one the client takes.
pub open spec fn is_client_name(name: Seq<char>) -> bool {
    name.len() > 0 && !name.contains(' ') && !name.contains('/') && !name.contains('\\')
}

pub open spec fn firsts(v: Seq<(Seq<char>, Seq<char>)>) -> Seq<Seq<char>> {
    v.map_values(|c: (Seq<char>, Seq<char>)| c.0)
}

/// The commands that the client is told of, in order of declaration, each name
/// once.
pub open spec fn payload(all: Seq<(Seq<char>, Seq<char>)>) -> Seq<(Seq<char>, Seq<char>)>
    decreases all.len(),
{
    if all.len() == 0 {
        Seq::empty()
    } else {
        let init = payload(all.drop_last());
        let name = client_name(all.last().0);
        if is_client_name(name) && !firsts(init).contains(name) {
            init.push((name, all.last().1))
        } else {
            init
        }
    }
}

fn taken(name: &str) -> (r: bool)
    ensures
        r == is_client_name(name@),
{
    let v = chars_of(name);
    if v.len() == 0 {
        return false;
    }
    let mut i: usize = 0;
    while i < v.len()
        invariant
            i <= v.len(),
            v@ == name@,
            v@.len() > 0,
            forall|k: int|
                0 <= k < i ==> #[trigger] v@[k] != ' ' && v@[k] != '/' && v@[k] != '\\',
        decreases v.len() - i,
    {
        if v[i] == ' ' || v[i] == '/' || v[i] == '\\' {
            assert(name@.contains(v@[i as int]));
            return false;
        }
        i = i + 1;
    }
    true
}

/// The commands that the client is told of: the built-in ones, the skills and
/// the user's, in that order.
pub fn commands_payload(all: &Vec<Command>) -> (r: Vec<Command>)
    ensures
        command_views(r@) == payload(command_views(all@)),
{
    let ghost every = command_views(all@);
    let mut out: Vec<Command> = Vec::new();
    let mut seen: Vec<String> = Vec::new();
    let mut i: usize = 0;
    assert(every.take(0) =~= Seq::empty());
    assert(command_views(out@) =~= Seq::empty());
    assert(views(seen@) =~= firsts(command_views(out@)));
    while i < all.len()
        invariant
            i <= all.len(),
            every == command_views(all@),
            command_views(out@) == payload(every.take(i as int)),
            views(seen@) == firsts(command_views(out@)),
        decreases all.len() - i,
    {
        assert(every.take(i + 1).drop_last() =~= every.take(i as int));
        assert(every.take(i + 1).last() == (all@[i as int].name@, all@[i as int].description@));
        let name = strip_leading(trim(all[i].name.as_str()), '/');
        let ghost pre = command_views(out@);
        let ghost pre_seen = views(seen@);
        if taken(name) && !list_has(&seen, name) {
            out.push(
                Command { name: name.to_owned(), description: all[i].description.clone() },
            );
            seen.push(name.to_owned());
            assert(command_views(out@) =~= pre.push((name@, all@[i as int].description@)));
            assert(views(seen@) =~= pre_seen.push(name@));
            assert(firsts(command_views(out@)) =~= firsts(pre).push(name@));
        }
        i = i + 1;
    }
    assert(every.take(i as int) =~= every);
    out
}

/// A provider's settings.
pub struct ProviderSettings {
    pub enabled: bool,
    pub has_api_key: bool,
    pub models: Vec<String>,
    pub default_model: Option<String>,
}

/// A provider of the registry; without settings it is not configured.
pub struct ProviderEntry {
    pub id: String,
    pub display: String,
    pub requires_api_key: bool,
    pub settings: Option<ProviderSettings>,
}

/// A model of the catalog.
pub struct ModelEntry {
    pub model_id: String,
    pub name: String,
}

pub open spec fn model_views(v: Seq<ModelEntry>) -> Seq<(Seq<char>, Seq<char>)> {
    v.map_values(|m: ModelEntry| (m.model_id@, m.name@))
}

/// The catalog of models.
pub struct Models {
    pub available: Vec<ModelEntry>,
    pub current: String,
}

/// The names that are not blank, trimmed.
pub open spec fn nonblank(v: Seq<Seq<char>>) -> Seq<Seq<char>>
    decreases v.len(),
{
    if v.len() == 0 {
        v
    } else if trimmed(v.last()).len() > 0 {
        nonblank(v.drop_last()).push(trimmed(v.last()))
    } else {
        nonblank(v.drop_last())
    }
}

/// A provider's models: those it lists, else its default.
pub open spec fn provider_models(s: ProviderSettings) -> Seq<Seq<char>> {
    let listed = nonblank(views(s.models@));
    if listed.len() > 0 {
        listed
    } else {
        match s.default_model {
            Some(d) => if trimmed(d@).len() > 0 {
                seq![trimmed(d@)]
            } else {
                Seq::empty()
            },
            None => Seq::empty(),
        }
    }
}

/// The catalog's entries for a provider's models.
pub open spec fn model_entries(id: Seq<char>, display: Seq<char>, models: Seq<Seq<char>>) -> Seq<
    (Seq<char>, Seq<char>),
> {
    models.map_values(|m: Seq<char>| (id + "/"@ + m, display + " / "@ + m))
}

/// Whether a provider can be used.
pub open spec fn is_usable(p: ProviderEntry) -> bool {
    p.settings is Some && p.settings->0.enabled && !(p.requires_api_key
        && !p.settings->0.has_api_key)
}

/// The entries of the registry's usable providers.
pub open spec fn registry_models(v: Seq<ProviderEntry>) -> Seq<(Seq<char>, Seq<char>)>
    decreases v.len(),
{
    if v.len() == 0 {
        Seq::empty()
    } else {
        let init = registry_models(v.drop_last());
        let p = v.last();
        if is_usable(p) {
            init + model_entries(p.id@, p.display@, provider_models(p.settings->0))
        } else {
            init
        }
    }
}

/// All entries: the registry's, then the active custom provider's.
pub open spec fn all_models(
    registry: Seq<ProviderEntry>,
    custom: Option<(Seq<char>, ProviderSettings)>,
) -> Seq<(Seq<char>, Seq<char>)> {
    match custom {
        Some((name, s)) => registry_models(registry) + model_entries(
            name,
            name,
            provider_models(s),
        ),
        None => registry_models(registry),
    }
}

/// The current model: the pinned one, else the first of the catalog.
pub open spec fn current_model(
    pinned: Option<Seq<char>>,
    all: Seq<(Seq<char>, Seq<char>)>,
) -> Seq<char> {
    match pinned {
        Some(p) => p,
        None => if all.len() > 0 {
            all[0].0
        } else {
            Seq::empty()
        },
    }
}

fn push_provider_models(
    available: &mut Vec<ModelEntry>,
    id: &str,
    display: &str,
    s: &ProviderSettings,
)
    ensures
        model_views(final(available)@) == model_views(old(available)@) + model_entries(
            id@,
            display@,
            provider_models(*s),
        ),
{
    let ghost listed = views(s.models@);
    let mut models: Vec<String> = Vec::new();
    let mut i: usize = 0;
    assert(listed.take(0) =~= Seq::empty());
    assert(views(models@) =~= Seq::empty());
    while i < s.models.len()
        invariant
            i <= s.models.len(),
            listed == views(s.models@),
            views(models@) == nonblank(listed.take(i as int)),
        decreases s.models.len() - i,
    {
        assert(listed.take(i + 1).drop_last() =~= listed.take(i as int));
        assert(listed.take(i + 1).last() == s.models@[i as int]@);
        let m = trim(s.models[i].as_str());
        let ghost pre = views(models@);
        if !m.is_empty() {
            models.push(m.to_owned());
            assert(views(models@) =~= pre.push(m@));
        }
        i = i + 1;
    }
    assert(listed.take(i as int) =~= listed);
    assert(views(models@).len() == models.len());
    if models.len() == 0 {
        if let Some(d) = &s.default_model {
            let d = trim(d.as_str());
            if !d.is_empty() {
                models.push(d.to_owned());
                assert(views(models@) =~= seq![d@]);
            }
        }
    }
    assert(views(models@) =~= provider_models(*s));
    let ghost base = model_views(available@);
    let ghost entries = model_entries(id@, display@, views(models@));
    let mut k: usize = 0;
    assert(model_views(available@) =~= base + entries.take(0));
    while k < models.len()
        invariant
            k <= models.len(),
            entries == model_entries(id@, display@, views(models@)),
            model_views(available@) == base + entries.take(k as int),
        decreases models.len() - k,
    {
        let pair = cat3(id, "/", models[k].as_str());
        let name = cat3(display, " / ", models[k].as_str());
        let ghost pre = model_views(available@);
        let ghost e = (pair@, name@);
        available.push(ModelEntry { model_id: pair, name });
        assert(model_views(available@) =~= pre.push(e));
        assert(e == entries[k as int]);
        assert(base + entries.take(k + 1) =~= (base + entries.take(k as int)).push(e));
        k = k + 1;
    }
    assert(entries.take(k as int) =~= entries);
}

pub open spec fn custom_view(c: Option<(String, ProviderSettings)>) -> Option<
    (Seq<char>, ProviderSettings),
> {
    match c {
        Some((n, s)) => Some((n@, s)),
        None => None,
    }
}

/// The catalog of models. A provider that is enabled but cannot be used does
/// not appear; the current model is the pinned one, else the first.
pub fn models_payload(
    registry: &Vec<ProviderEntry>,
    custom: &Option<(String, ProviderSettings)>,
    pinned: &Option<String>,
) -> (r: Models)
    ensures
        model_views(r.available@) == all_models(registry@, custom_view(*custom)),
        r.current@ == current_model(
            oview(*pinned),
            all_models(registry@, custom_view(*custom)),
        ),
{
    let mut available: Vec<ModelEntry> = Vec::new();
    let mut i: usize = 0;
    assert(registry@.take(0) =~= Seq::empty());
    assert(model_views(available@) =~= Seq::empty());
    while i < registry.len()
        invariant
            i <= registry.len(),
            model_views(available@) == registry_models(registry@.take(i as int)),
        decreases registry.len() - i,
    {
        assert(registry@.take(i + 1).drop_last() =~= registry@.take(i as int));
        let p = &registry[i];
        if let Some(s) = &p.settings {
            if s.enabled && !(p.requires_api_key && !s.has_api_key) {
                push_provider_models(&mut available, p.id.as_str(), p.display.as_str(), s);
            }
        }
        i = i + 1;
    }
    assert(registry@.take(i as int) =~= registry@);
    if let Some((name, s)) = custom {
        push_provider_models(&mut available, name.as_str(), name.as_str(), s);
    }
    assert(model_views(available@).len() == available.len());
    let current = match pinned {
        Some(p) => p.clone(),
        None => if available.len() > 0 {
            assert(model_views(available@)[0].0 == available@[0].model_id@);
            available[0].model_id.clone()
        } else {
            String::new()
        },
    };
    Models { available, current }
}

// -------------------------------------------------------------------- laws
/// Every command's name is one the client takes, and none comes twice.
pub proof fn law_names_are_clean_and_unique(all: Seq<(Seq<char>, Seq<char>)>)
    ensures
        forall|i: int|
            0 <= i < payload(all).len() ==> is_client_name((#[trigger] payload(all)[i]).0),
        firsts(payload(all)).no_duplicates(),
    decreases all.len(),
{
    if all.len() > 0 {
        let init = payload(all.drop_last());
        law_names_are_clean_and_unique(all.drop_last());
        let p = payload(all);
        let name = client_name(all.last().0);
        if is_client_name(name) && !firsts(init).contains(name) {
            assert(firsts(p) =~= firsts(init).push(name));
            assert forall|i: int| 0 <= i < p.len() implies is_client_name(
                (#[trigger] p[i]).0,
            ) by {
                if i < init.len() {
                    assert(p[i] == init[i]);
                }
            }
            assert forall|i: int, j: int| 0 <= i < j < p.len() implies firsts(p)[i] != firsts(
                p,
            )[j] by {
                if j == init.len() {
                    assert(firsts(init)[i] == firsts(p)[i]);
                } else {
                    assert(firsts(init)[i] == firsts(p)[i] && firsts(init)[j] == firsts(p)[j]);
                }
            }
        }
    }
}

/// A name is one the client takes where it is not empty and holds neither a
/// blank nor a slash of either kind.
pub proof fn law_client_names(name: Seq<char>, n: nat)
    ensures
        is_client_name(name) <==> name.len() > 0 && (forall|i: int|
            0 <= i < name.len() ==> #[trigger] name[i] != ' ' && name[i] != '/' && name[i]
                != '\\'),
        is_client_name(name) && !is_space(name[0]) && !is_space(name.last()) ==> client_name(
            Seq::new(n, |i: int| '/') + name,
        ) == name,
{
    if is_client_name(name) {
        assert forall|i: int| 0 <= i < name.len() implies #[trigger] name[i] != ' ' && name[i]
            != '/' && name[i] != '\\' by {
            assert(name.contains(name[i]));
        }
        let slashes = Seq::new(n, |i: int| '/');
        let t = slashes + name;
        if !is_space(name[0]) && !is_space(name.last()) {
            let none = Seq::<char>::empty();
            assert(none + t + none =~= t);
            law_white_space('/');
            assert(t.last() == name.last());
            assert(t[0] == '/' || t[0] == name[0]);
            law_trimming_leaves_the_text(none, t, none);
            law_leading_run_is_dropped(n, name, '/');
        }
    }
}

proof fn lemma_payload_has(all: Seq<(Seq<char>, Seq<char>)>, i: int)
    requires
        0 <= i < all.len(),
        is_client_name(client_name(all[i].0)),
    ensures
        firsts(payload(all)).contains(client_name(all[i].0)),
        (forall|j: int| 0 <= j < i ==> client_name((#[trigger] all[j]).0) != client_name(all[i].0))
            ==> payload(all).contains((client_name(all[i].0), all[i].1)),
    decreases all.len(),
{
    let init = payload(all.drop_last());
    let name = client_name(all[i].0);
    let last = (client_name(all.last().0), all.last().1);
    let p = payload(all);
    if i < all.len() - 1 {
        lemma_payload_has(all.drop_last(), i);
        let k = choose|k: int| 0 <= k < firsts(init).len() && firsts(init)[k] == name;
        assert(p[k] == init[k]);
        assert(firsts(p)[k] == name);
        if forall|j: int| 0 <= j < i ==> client_name((#[trigger] all[j]).0) != name {
            assert forall|j: int| 0 <= j < i implies client_name(
                (#[trigger] all.drop_last()[j]).0,
            ) != name by {
                assert(client_name(all[j].0) != name);
            }
            let m = choose|m: int| 0 <= m < init.len() && init[m] == (name, all[i].1);
            assert(p[m] == (name, all[i].1));
        }
    } else {
        if firsts(init).contains(name) {
            assert(p == init);
            let k = choose|k: int| 0 <= k < firsts(init).len() && firsts(init)[k] == name;
            lemma_payload_from(all.drop_last(), k);
            let j = choose|j: int|
                0 <= j < all.len() - 1 && init[k] == (
                    client_name((#[trigger] all.drop_last()[j]).0),
                    all.drop_last()[j].1,
                );
            assert(all.drop_last()[j] == all[j]);
            assert(client_name(all[j].0) == name);
        } else {
            assert(p == init.push(last));
            assert(p[init.len() as int] == last);
            assert(firsts(p)[init.len() as int] == name);
        }
    }
}

proof fn lemma_payload_from(all: Seq<(Seq<char>, Seq<char>)>, k: int)
    requires
        0 <= k < payload(all).len(),
    ensures
        exists|j: int|
            0 <= j < all.len() && payload(all)[k] == (client_name((#[trigger] all[j]).0), all[j].1),
    decreases all.len(),
{
    let init = payload(all.drop_last());
    if k < init.len() {
        lemma_payload_from(all.drop_last(), k);
        let j = choose|j: int|
            0 <= j < all.len() - 1 && init[k] == (
                client_name((#[trigger] all.drop_last()[j]).0),
                all.drop_last()[j].1,
            );
        assert(all[j] == all.drop_last()[j]);
    } else {
        assert(payload(all)[k] == (client_name(all[all.len() - 1].0), all[all.len() - 1].1));
    }
}

/// Every command with a clean name reaches the client, with the description of
/// the first that has the name; and what reaches the client was declared.
pub proof fn law_every_command_is_told(all: Seq<(Seq<char>, Seq<char>)>, i: int)
    ensures
        0 <= i < all.len() && is_client_name(client_name(all[i].0)) ==> firsts(
            payload(all),
        ).contains(client_name(all[i].0)),
        0 <= i < all.len() && is_client_name(client_name(all[i].0)) && (forall|j: int|
            0 <= j < i ==> client_name((#[trigger] all[j]).0) != client_name(all[i].0))
            ==> payload(all).contains((client_name(all[i].0), all[i].1)),
        0 <= i < payload(all).len() ==> exists|j: int|
            0 <= j < all.len() && payload(all)[i] == (client_name((#[trigger] all[j]).0), all[j].1),
{
    if 0 <= i < all.len() && is_client_name(client_name(all[i].0)) {
        lemma_payload_has(all, i);
    }
    if 0 <= i < payload(all).len() {
        lemma_payload_from(all, i);
    }
}

proof fn lemma_nonblank_adds(a: Seq<Seq<char>>, b: Seq<Seq<char>>)
    ensures
        nonblank(a + b) == nonblank(a) + nonblank(b),
    decreases b.len(),
{
    if b.len() == 0 {
        assert(a + b =~= a);
        assert(nonblank(a) + nonblank(b) =~= nonblank(a));
    } else {
        assert((a + b).drop_last() =~= a + b.drop_last());
        lemma_nonblank_adds(a, b.drop_last());
        assert(nonblank(a + b) =~= nonblank(a) + nonblank(b));
    }
}

/// A provider offers each model that it lists, trimmed and in order, and where
/// it lists none its default.
pub proof fn law_listed_models_are_offered(
    a: Seq<Seq<char>>,
    m: Seq<char>,
    b: Seq<Seq<char>>,
    s: ProviderSettings,
)
    ensures
        trimmed(m).len() > 0 ==> nonblank(a.push(m) + b) == nonblank(a).push(trimmed(m))
            + nonblank(b),
        trimmed(m).len() == 0 ==> nonblank(a.push(m) + b) == nonblank(a) + nonblank(b),
        nonblank(views(s.models@)).len() > 0 ==> provider_models(s) == nonblank(views(s.models@)),
        nonblank(views(s.models@)).len() == 0 && s.default_model is Some && trimmed(
            s.default_model->0@,
        ).len() > 0 ==> provider_models(s) == seq![trimmed(s.default_model->0@)],
        nonblank(views(s.models@)).len() == 0 && s.default_model is None ==> provider_models(
            s,
        ).len() == 0,
        nonblank(views(s.models@)).len() == 0 && s.default_model is Some && trimmed(
            s.default_model->0@,
        ).len() == 0 ==> provider_models(s).len() == 0,
{
    lemma_nonblank_adds(a.push(m), b);
    assert(a.push(m).drop_last() =~= a);
}

proof fn lemma_registry_adds(a: Seq<ProviderEntry>, b: Seq<ProviderEntry>)
    ensures
        registry_models(a + b) == registry_models(a) + registry_models(b),
    decreases b.len(),
{
    if b.len() == 0 {
        assert(a + b =~= a);
        assert(registry_models(a) + registry_models(b) =~= registry_models(a));
    } else {
        assert((a + b).drop_last() =~= a + b.drop_last());
        lemma_registry_adds(a, b.drop_last());
        assert(registry_models(a + b) =~= registry_models(a) + registry_models(b));
    }
}

/// A provider's models stand in the catalog where it is configured, enabled and
/// has the key it needs, each under the provider's id and name; the custom
/// provider's stand behind all others.
pub proof fn law_usable_providers_are_listed(
    a: Seq<ProviderEntry>,
    p: ProviderEntry,
    b: Seq<ProviderEntry>,
    custom: Option<(Seq<char>, ProviderSettings)>,
    i: int,
)
    ensures
        p.settings is Some && p.settings->0.enabled && (p.requires_api_key
            ==> p.settings->0.has_api_key) ==> registry_models(a.push(p) + b) == registry_models(a)
            + model_entries(p.id@, p.display@, provider_models(p.settings->0)) + registry_models(b),
        p.settings is None || !p.settings->0.enabled || (p.requires_api_key
            && !p.settings->0.has_api_key) ==> registry_models(a.push(p) + b) == registry_models(a)
            + registry_models(b),
        p.settings is Some && 0 <= i < provider_models(p.settings->0).len() ==> model_entries(
            p.id@,
            p.display@,
            provider_models(p.settings->0),
        )[i] == (
            p.id@ + "/"@ + provider_models(p.settings->0)[i],
            p.display@ + " / "@ + provider_models(p.settings->0)[i],
        ),
        custom is None ==> all_models(a, custom) == registry_models(a),
        custom matches Some((name, s)) ==> all_models(a, custom) == registry_models(a)
            + model_entries(name, name, provider_models(s)),
{
    lemma_registry_adds(a.push(p), b);
    assert(a.push(p).drop_last() =~= a);
}

/// A pinned model is the current one; without one it is the catalog's first.
pub proof fn law_pinned_model_is_current(
    pinned: Option<Seq<char>>,
    first: (Seq<char>, Seq<char>),
    rest: Seq<(Seq<char>, Seq<char>)>,
)
    ensures
        pinned is Some ==> current_model(pinned, rest) == pinned->0,
        current_model(None, seq![first] + rest) == first.0,
        current_model(None, Seq::empty()).len() == 0,
{
}

} // verus!
