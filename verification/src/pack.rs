//! Packing the cached translations of many mods into one Factorio mod.
//!
//! Layout of the pack:
//! ```text
//! <pack_name>/
//!   locale/zh-CN/<mod_name>.cfg   (one file per source mod)
//!   info.json
//! ```
use vstd::prelude::*;
use crate::assoc::{assoc_get, text_map_pairs};
use crate::flow::{target_lang, views, TARGET_LANG};
use crate::ini_spec::{all_triples, ini_contents, ini_lookup, ini_well_formed, last_set, ini_new, ini_new_view, ini_sections, ini_set, ini_write, section_triples, set_all, spec_ini_parse, spec_ini_text, IniView, Triple};
use crate::text::{concat2, concat3, concat4, concat5, decimal_text, str_ends_with, str_starts_with, str_eq, to_string, usize_text};
use crate::translation::{ini_to_str, lang_map_get, str_to_ini, LangView, LocaleInfo};

verus! {

/// The sections of the base game's locale.
pub const BASE_GAME_PROTECTED_SECTIONS: [&'static str; 262] = [
    "gui-explore-mods-sort-attribute-name",
    "entity-status",
    "gui-select-upgrade-planner",
    "gui-advert-switch2",
    "gui-train",
    "gui-network-selector",
    "fluid-name",
    "difficulty",
    "description",
    "richness",
    "item-description",
    "gui-technologies-list",
    "gui-control-behavior",
    "collector-context",
    "gui-current-research",
    "gui-production",
    "technology-description",
    "gui-map-editor-clone-editor",
    "gui-edit-label",
    "gui-arithmetic",
    "gui-tips-and-tricks",
    "gui-achievements",
    "gui-train-wait-condition-description",
    "noise-property",
    "tips-and-tricks-item-name",
    "gui-interface-settings-description",
    "gui-space-platform",
    "gui-explore-mods-filter-description",
    "gui-migrated-content",
    "gui-undelete-space-platforms",
    "asteroid-chunk-name",
    "space-platforms",
    "gui-permissions-names",
    "gui-ending-screen",
    "achievement-name",
    "programmable-speaker-note",
    "item-name",
    "color-capital",
    "shortcut",
    "tips-and-tricks-item-description",
    "gui-side-menu",
    "gui-train-stop",
    "gui-player-management",
    "gui-sound-settings",
    "gui-map-editor-instructions",
    "gui-multiplayer-connect",
    "gui-technology-preview",
    "gui-remote-view",
    "gui-map-generator",
    "http-error",
    "gui-alert",
    "gui-rocket-silo",
    "gui-save-scenario",
    "equipment-name",
    "gui-technology",
    "gui-interrupts",
    "gui-load-game",
    "gui-downloading-mods",
    "gui-logistic",
    "save-map-failed",
    "recipe-description",
    "recipe-name",
    "mod-name",
    "surface-name",
    "gui-technology-queue",
    "gui-create-account",
    "cant-build-reason",
    "gui-update",
    "permissions-help",
    "gui-plant-entity",
    "controls",
    "gui-advert",
    "character-corpse",
    "gui-crafting-queue",
    "technology-trigger",
    "command-help",
    "gui-map-editor-title",
    "inventory-full-message",
    "noise-expression",
    "gui-orbital-request",
    "gui-graphics-settings",
    "factoriopedia-description",
    "gui-players",
    "gui-new-game",
    "gui-additional-entity-settings",
    "gui-map-editor-tile-editor",
    "gui-space-platforms",
    "entity-name",
    "gui-roboport",
    "error",
    "gui-space",
    "agricultural-tower-gui",
    "quality-name",
    "virtual-signal-name",
    "tutorial-gui",
    "tips-and-tricks-simulation",
    "gui-infinity-pipe",
    "gui-display-panel",
    "gui-assembling-machine",
    "gui-alert-tooltip",
    "gui-building-statistics",
    "airborne-pollutant-name",
    "gui-about",
    "gui-game-finished",
    "gui-user-login",
    "gui-explore-mods",
    "fuel-category-name",
    "gui-browse-games",
    "spidertron-status",
    "gui-mods",
    "tooltip-category",
    "gui-redo-confirmation",
    "gui-chartbundle-upload-screen",
    "tile-description",
    "gui-mining-drill",
    "gui-bonus",
    "chat-icon-select-list-gui",
    "gui-electric-energy-interface",
    "gui-train-state",
    "gui-control-behavior-modes",
    "story",
    "gui-text-tags",
    "controls-description",
    "map-gen-preset-name",
    "invalid-map-version",
    "gui-multiplayer-lobby",
    "gui-admin-player",
    "gui-graphics-settings-description",
    "gui-map-editor-time-editor",
    "gui-decider",
    "size",
    "gui-sync-mods-with-save",
    "gui-map-info",
    "gui-logistic-section",
    "space-location-name",
    "clone-area-errors",
    "gui-map-editor-force-editor",
    "gui-lab",
    "tile-name",
    "space-location-description",
    "gui-heat-interface",
    "item-limitation",
    "achievement-description",
    "gui-inserter",
    "gui-turret",
    "gui-map-editor-settings",
    "alerts-config-gui",
    "gui-constant",
    "gui-character",
    "technology-name",
    "map-gen-preset-description",
    "gui-undo-confirmation",
    "control-keys",
    "quality-description",
    "gui-lamp",
    "gui-redo-tooltip",
    "gui-resource-entity",
    "gui-asteroid-collector",
    "gui-map-view-settings",
    "gui-other-settings-description",
    "gui-manage-mods",
    "json-parse-error",
    "gui-edit-pin",
    "gui-speed-panel",
    "controller",
    "gui-fluidbox",
    "gui-blueprint-library",
    "gui-set-email",
    "gui-space-locations",
    "gui-map-generator-errors",
    "gui-map-editor-settings-categories",
    "gui-power-switch",
    "gui-load-scenario",
    "gui-map-editor-script-editor",
    "gui-undo-action",
    "gui-mod-info",
    "gui-the-rest-settings",
    "gui-tag-edit",
    "color",
    "modifier-description",
    "gui-map-editor-surface-editor",
    "gui-goal-description",
    "gui-interface-settings",
    "gui-splitter",
    "gui-control-settings",
    "fluid-description",
    "surface-property-unit",
    "gui-deconstruction",
    "ini-parse-error",
    "gui-starmap",
    "gui-other-settings",
    "gui-undo-tooltip",
    "factoriopedia",
    "config-help",
    "entity-type",
    "gui-permissions",
    "description-rail",
    "gui-redo-action",
    "virtual-signal-description",
    "multiplayer",
    "surface-property-name",
    "gui-linked-container",
    "gui-selector",
    "achievement-progress",
    "quality-tooltip",
    "command-output",
    "gui-save-game",
    "gui-map-editor-entity-editor",
    "programmable-speaker-instrument",
    "config-output",
    "permissions-command-output",
    "gui-update-mods",
    "gui-menu",
    "gui-map-editor",
    "gui-package-list",
    "mod-description",
    "autoplace-control-names",
    "gui-server-config",
    "gui-electric-network",
    "inventory-restriction",
    "gui-upgrade",
    "gui-blueprint-book",
    "gui-map-editor-menu",
    "airborne-pollutant-name-with-amount",
    "gui-blueprint",
    "gui-map-editor-map-settings-editor",
    "deconstruction-tile-mode",
    "gui-feedback",
    "item-group-name",
    "gui-map-editor-lua-snippet-editor",
    "gui-car",
    "gui-trains",
    "decorative-name",
    "gui-new-space-platform",
    "gui-blueprint-parametrisation",
    "gui-explore-mods-filter-name",
    "chartbundle-state",
    "gui-quick-panel",
    "gui-auth-server",
    "gui-mod-settings",
    "gui-kills",
    "gui-infinity-container",
    "gui",
    "gui-mod-load-error",
    "gui-control-behavior-modes-guis",
    "gui-hotkey-suggestions",
    "gui-programmable-speaker",
    "gui-mod-startup-settings-mismatch",
    "entity-description",
    "gui-undo-redo-wire-type",
    "gui-rename",
    "gui-requester",
    "ammo-category-name",
    "damage-type-name",
    "frequency",
    "lua-profiler",
    "gui-map-editor-force-data-editor",
    "gui-sound-settings-description",
    "gui-surface-list",
    "gui-map-editor-tool",
    "graphics-errors",
    "",
];

/// The protected section names.
pub open spec fn protected_names() -> Seq<Seq<char>> {
    BASE_GAME_PROTECTED_SECTIONS@.map_values(|s: &str| s@)
}

/// Whether a section name is one of the base game's protected sections.
pub fn is_protected(s: &str) -> (r: bool)
    ensures
        r == protected_names().contains(s@),
{
    let mut i: usize = 0;
    while i < 262
        invariant
            0 <= i <= 262,
            forall|j: int| 0 <= j < i ==> protected_names()[j] != s@,
        decreases 262 - i,
    {
        assert(protected_names()[i as int] == BASE_GAME_PROTECTED_SECTIONS@[i as int]@);
        if str_eq(BASE_GAME_PROTECTED_SECTIONS[i], s) {
            assert(protected_names()[i as int] == s@);
            return true;
        }
        i += 1;
    }
    false
}

/// What a map of text keys to texts holds.
pub uninterp spec fn text_hash_map_contents(m: std::collections::HashMap<String, String>) -> Map<Seq<char>, Seq<char>>;

/// `HashMap::contains_key` with a text key.
#[verifier::external_body]
fn base_has_key(m: &std::collections::HashMap<String, String>, key: &str) -> (r: bool)
    ensures
        r == text_hash_map_contents(*m).contains_key(key@),
{
    m.contains_key(key)
}

/// The base key of a translation key: `section.key`, or the bare key in the
/// general section.
pub open spec fn base_key(t: Triple) -> Seq<char> {
    match t.0 {
        Some(s) => s + seq!['.'] + t.1,
        None => t.1,
    }
}

/// A translation entry touches the base game: the base game's terms hold its
/// key (`section.key`, or the bare key in the general section).
pub open spec fn overrides_base(t: Triple, base: Map<Seq<char>, Seq<char>>) -> bool {
    base.contains_key(base_key(t))
}

/// The key under which the base game's terms name a triple, with its value.
pub open spec fn base_entry(t: Triple) -> (Seq<char>, Seq<char>) {
    (base_key(t), t.2)
}

/// Every `(section.key, value)` of a base game locale document, in order; a
/// key of the general section stands alone. These are the keys that
/// `has_base_overlap` looks up.
pub fn base_key_pairs(doc: &ini::Ini) -> (r: Vec<(String, String)>)
    ensures
        r.deep_view() == all_triples(ini_contents(*doc)).map_values(|t: Triple| base_entry(t)),
{
    let secs = ini_sections(doc);
    let ghost sv = secs.deep_view();
    proof {
        reveal_strlit(".");
    }
    let mut out: Vec<(String, String)> = Vec::new();
    let mut i: usize = 0;
    assert(all_triples(sv.take(0)).map_values(|t: Triple| base_entry(t)) =~= Seq::<(Seq<char>, Seq<char>)>::empty());
    while i < secs.len()
        invariant
            0 <= i <= secs.len(),
            sv == secs.deep_view(),
            sv == ini_contents(*doc),
            "."@ == seq!['.'],
            out.deep_view() == all_triples(sv.take(i as int)).map_values(|t: Triple| base_entry(t)),
        decreases secs.len() - i,
    {
        let sec = &secs[i].0;
        let props = &secs[i].1;
        let ghost base = all_triples(sv.take(i as int));
        let ghost name = sv[i as int].0;
        let ghost pv = sv[i as int].1;
        assert(pv == props.deep_view());
        assert(name == sec.deep_view());
        assert(section_triples((name, pv.take(0))) =~= Seq::<Triple>::empty());
        assert(base + section_triples((name, pv.take(0))) =~= base);
        let mut j: usize = 0;
        while j < props.len()
            invariant
                0 <= j <= props.len(),
                pv == props.deep_view(),
                name == sec.deep_view(),
                "."@ == seq!['.'],
                out.deep_view() == (base + section_triples((name, pv.take(j as int)))).map_values(|t: Triple| base_entry(t)),
            decreases props.len() - j,
        {
            let ghost t: Triple = (name, props[j as int].0@, props[j as int].1@);
            proof {
                crate::translation::lemma_section_triples_push(name, pv, j as int);
                assert(pv[j as int] == (props[j as int].0@, props[j as int].1@));
                assert((base + section_triples((name, pv.take(j + 1)))) =~= (base + section_triples((name, pv.take(j as int)))).push(t));
            }
            let key = match sec {
                Some(s) => concat3(s.as_str(), ".", props[j].0.as_str()),
                None => props[j].0.clone(),
            };
            assert(key@ == base_key(t));
            let ghost before = out.deep_view();
            out.push((key, props[j].1.clone()));
            assert(out.deep_view() =~= before.push(base_entry(t)));
            assert((base + section_triples((name, pv.take(j as int)))).push(t).map_values(|t: Triple| base_entry(t))
                =~= (base + section_triples((name, pv.take(j as int)))).map_values(|t: Triple| base_entry(t)).push(base_entry(t)));
            j += 1;
        }
        proof {
            crate::translation::lemma_all_triples_take(sv, i as int);
            assert(pv.take(pv.len() as int) =~= pv);
        }
        i += 1;
    }
    assert(sv.take(sv.len() as int) =~= sv);
    out
}

/// Whether any key of a document appears among the base game's keys.
pub fn has_base_overlap(doc: &ini::Ini, base_keys: &std::collections::HashMap<String, String>) -> (r: bool)
    ensures
        r == exists|i: int|
            0 <= i < all_triples(ini_contents(*doc)).len() && overrides_base(
                #[trigger] all_triples(ini_contents(*doc))[i],
                text_hash_map_contents(*base_keys),
            ),
{
    let ghost base = text_hash_map_contents(*base_keys);
    let secs = ini_sections(doc);
    let ghost sv = secs.deep_view();
    proof {
        reveal_strlit(".");
    }
    let mut i: usize = 0;
    while i < secs.len()
        invariant
            0 <= i <= secs.len(),
            sv == secs.deep_view(),
            sv == ini_contents(*doc),
            base == text_hash_map_contents(*base_keys),
            "."@ == seq!['.'],
            forall|k: int| 0 <= k < all_triples(sv.take(i as int)).len() ==> !overrides_base(#[trigger] all_triples(sv.take(i as int))[k], base),
        decreases secs.len() - i,
    {
        proof {
            crate::translation::lemma_all_triples_take(sv, i as int);
        }
        let sec = &secs[i].0;
        let props = &secs[i].1;
        let ghost base_ts = all_triples(sv.take(i as int));
        let ghost name = sv[i as int].0;
        let ghost pv = sv[i as int].1;
        let ghost st = section_triples((name, pv));
        assert(pv == props.deep_view());
        assert(name == sec.deep_view());
        assert(pv.take(pv.len() as int) =~= pv);
        assert(all_triples(sv.take(i + 1)) == base_ts + st);
        let mut j: usize = 0;
        while j < props.len()
            invariant
                0 <= j <= props.len(),
                pv == props.deep_view(),
                name == sec.deep_view(),
                st == section_triples((name, pv)),
                base == text_hash_map_contents(*base_keys),
                "."@ == seq!['.'],
                all_triples(sv.take(i + 1)) == base_ts + st,
                st.len() == pv.len(),
                sv == ini_contents(*doc),
                i < sv.len(),
                forall|k: int| 0 <= k < j ==> !overrides_base(#[trigger] st[k], base),
            decreases props.len() - j,
        {
            assert(st[j as int] == (name, pv[j as int].0, pv[j as int].1));
            let key = match sec {
                Some(s) => concat3(s.as_str(), ".", props[j].0.as_str()),
                None => props[j].0.clone(),
            };
            assert(key@ == base_key(st[j as int]));
            if base_has_key(base_keys, key.as_str()) {
                assert(overrides_base(st[j as int], base));
                assert(all_triples(sv.take(i + 1))[base_ts.len() + j] == st[j as int]);
                proof {
                    crate::ini_spec::lemma_all_triples_prefix(sv, i + 1);
                    assert(all_triples(sv)[base_ts.len() + j] == st[j as int]);
                }
                return true;
            }
            j += 1;
        }
        assert forall|k: int| 0 <= k < all_triples(sv.take(i + 1)).len() implies !overrides_base(
            #[trigger] all_triples(sv.take(i + 1))[k],
            base,
        ) by {
            if k < base_ts.len() {
                assert(all_triples(sv.take(i + 1))[k] == base_ts[k]);
            } else {
                assert(all_triples(sv.take(i + 1))[k] == st[k - base_ts.len()]);
            }
        }
        i += 1;
    }
    assert(sv.take(sv.len() as int) =~= sv);
    false
}

/// A file of the cache directory is a mod's cache: a regular file named
/// `*.json`, not starting with `_`.
pub fn is_cache_file(name: &str, is_regular_file: bool) -> (r: bool)
    ensures
        r == (is_regular_file && ".json"@.is_suffix_of(name@) && !"_"@.is_prefix_of(name@)),
{
    is_regular_file && str_ends_with(name, ".json") && !str_starts_with(name, "_")
}

/// The mod a cache file is for: its file stem, or `unknown`.
pub fn cache_mod_name(stem: Option<&str>) -> (r: &str)
    ensures
        r@ == match stem {
            Some(s) => s@,
            None => "unknown"@,
        },
{
    match stem {
        Some(s) => s,
        None => "unknown",
    }
}

/// The triples of a language's files, file by file; a file that does not
/// parse contributes none.
pub open spec fn pack_triples(files: LangView) -> Seq<Triple>
    decreases files.len(),
{
    if files.len() == 0 {
        Seq::empty()
    } else {
        pack_triples(files.drop_last()) + match spec_ini_parse(files.last().1) {
            Some(doc) => all_triples(doc),
            None => Seq::empty(),
        }
    }
}

/// The value that the last readable file holding `key` under `sec` gives
/// it, where any does.
pub open spec fn last_file_value(files: LangView, sec: Option<Seq<char>>, key: Seq<char>) -> Option<Seq<char>>
    decreases files.len(),
{
    if files.len() == 0 {
        None
    } else {
        match spec_ini_parse(files.last().1) {
            Some(doc) => match ini_lookup(doc, sec, key) {
                Some(v) => Some(v),
                None => last_file_value(files.drop_last(), sec, key),
            },
            None => last_file_value(files.drop_last(), sec, key),
        }
    }
}

/// The last triple set for a section and key among the triples of a
/// well-formed document is the document's own value there.
proof fn lemma_last_set_of_doc(doc: IniView, sec: Option<Seq<char>>, key: Seq<char>)
    requires
        ini_well_formed(doc),
    ensures
        last_set(all_triples(doc), sec, key) == ini_lookup(doc, sec, key),
{
    let ts = all_triples(doc);
    crate::ini_spec::lemma_well_formed_triples(doc, sec, key);
    match ini_lookup(doc, sec, key) {
        Some(w) => {
            crate::ini_spec::lemma_last_set_uniform(ts, sec, key, w);
        },
        None => {
            crate::ini_spec::lemma_last_set_uniform(ts, sec, key, Seq::<char>::empty());
        },
    }
}

/// Law: the document packed from a language's files reads, under every
/// section and key, the value of the last readable file that holds that key
/// in that section, and nothing where no readable file holds it (for files
/// that parse to well-formed documents).
pub proof fn law_pack_lookup(files: LangView, sec: Option<Seq<char>>, key: Seq<char>)
    requires
        forall|j: int| 0 <= j < files.len() ==> (spec_ini_parse(#[trigger] files[j].1) matches Some(d) ==> ini_well_formed(d)),
    ensures
        ini_lookup(set_all(ini_new_view(), pack_triples(files)), sec, key) == last_file_value(files, sec, key),
{
    crate::ini_spec::lemma_lookup_set_all(ini_new_view(), pack_triples(files), sec, key);
    crate::ini_spec::lemma_lookup_new(sec, key);
    lemma_pack_last_set(files, sec, key);
}

/// What `law_pack_lookup` rests on: the last triple set in the packed run is
/// the last readable file's value.
proof fn lemma_pack_last_set(files: LangView, sec: Option<Seq<char>>, key: Seq<char>)
    requires
        forall|j: int| 0 <= j < files.len() ==> (spec_ini_parse(#[trigger] files[j].1) matches Some(d) ==> ini_well_formed(d)),
    ensures
        last_set(pack_triples(files), sec, key) == last_file_value(files, sec, key),
    decreases files.len(),
{
    if files.len() > 0 {
        let prev = files.drop_last();
        assert forall|j: int| 0 <= j < prev.len() implies (spec_ini_parse(#[trigger] prev[j].1) matches Some(d) ==> ini_well_formed(d)) by {
            assert(prev[j] == files[j]);
        }
        lemma_pack_last_set(prev, sec, key);
        assert(files.last() == files[files.len() - 1]);
        match spec_ini_parse(files.last().1) {
            Some(doc) => {
                crate::ini_spec::lemma_last_set_append(pack_triples(prev), all_triples(doc), sec, key);
                lemma_last_set_of_doc(doc, sec, key);
            },
            None => {
                crate::ini_spec::lemma_last_set_append(pack_triples(prev), Seq::empty(), sec, key);
                assert(last_set(Seq::<Triple>::empty(), sec, key) is None);
            },
        }
    }
}

/// The names of a language's files that do not parse, in order.
pub open spec fn unreadable_files(files: LangView) -> Seq<Seq<char>>
    decreases files.len(),
{
    if files.len() == 0 {
        Seq::empty()
    } else {
        unreadable_files(files.drop_last()) + match spec_ini_parse(files.last().1) {
            Some(doc) => Seq::empty(),
            None => seq![files.last().0],
        }
    }
}

/// Sets every triple of `doc` into `acc`, in order.
fn set_all_from(acc: &mut ini::Ini, doc: &ini::Ini)
    ensures
        ini_contents(*final(acc)) == set_all(ini_contents(*old(acc)), all_triples(ini_contents(*doc))),
{
    let ghost start = ini_contents(*acc);
    let secs = ini_sections(doc);
    let ghost sv = secs.deep_view();
    let mut i: usize = 0;
    while i < secs.len()
        invariant
            0 <= i <= secs.len(),
            sv == secs.deep_view(),
            sv == ini_contents(*doc),
            start == ini_contents(*old(acc)),
            ini_contents(*acc) == set_all(start, all_triples(sv.take(i as int))),
        decreases secs.len() - i,
    {
        let sec = &secs[i].0;
        let props = &secs[i].1;
        let ghost base = all_triples(sv.take(i as int));
        let ghost name = sv[i as int].0;
        let ghost pv = sv[i as int].1;
        assert(pv == props.deep_view());
        assert(name == sec.deep_view());
        assert(section_triples((name, pv.take(0))) =~= Seq::<Triple>::empty());
        assert(base + section_triples((name, pv.take(0))) =~= base);
        let mut j: usize = 0;
        while j < props.len()
            invariant
                0 <= j <= props.len(),
                pv == props.deep_view(),
                name == sec.deep_view(),
                ini_contents(*acc) == set_all(start, base + section_triples((name, pv.take(j as int)))),
            decreases props.len() - j,
        {
            let ghost t: Triple = (name, props[j as int].0@, props[j as int].1@);
            proof {
                crate::translation::lemma_section_triples_push(name, pv, j as int);
                assert(pv[j as int] == (props[j as int].0@, props[j as int].1@));
                assert((base + section_triples((name, pv.take(j + 1)))) =~= (base + section_triples((name, pv.take(j as int)))).push(t));
                assert((base + section_triples((name, pv.take(j as int)))).push(t).drop_last() =~= base + section_triples((name, pv.take(j as int))));
            }
            ini_set(acc, sec, props[j].0.as_str(), props[j].1.as_str());
            j += 1;
        }
        proof {
            crate::translation::lemma_all_triples_take(sv, i as int);
            assert(pv.take(pv.len() as int) =~= pv);
        }
        i += 1;
    }
    assert(sv.take(sv.len() as int) =~= sv);
}

/// Setting two runs of triples one after the other is setting their concatenation.
proof fn lemma_set_all_append(c: IniView, a: Seq<Triple>, b: Seq<Triple>)
    ensures
        set_all(set_all(c, a), b) == set_all(c, a + b),
    decreases b.len(),
{
    if b.len() > 0 {
        lemma_set_all_append(c, a, b.drop_last());
        assert((a + b).drop_last() =~= a + b.drop_last());
        assert((a + b).last() == b.last());
    } else {
        assert(a + b =~= a);
    }
}

/// What goes into the pack for one mod.
#[derive(Debug)]
pub enum PackEntry {
    /// Nothing: the mod has no Chinese translation.
    Skip,
    /// This file, at this path of the pack.
    File { path: String, content: String },
}

/// `cfg`, or `cfg.disabled` for a mod whose translation touches a key of the
/// base game.
pub open spec fn pack_suffix(overrides: bool) -> Seq<char> {
    if overrides {
        "cfg.disabled"@
    } else {
        "cfg"@
    }
}

/// The path of a mod's translation in a pack: `{root}/locale/zh-CN/{mod}.{suffix}`.
pub fn locale_entry_path(root: &str, mod_name: &str, suffix: &str) -> (r: String)
    ensures
        r@ == root@ + "/locale/zh-CN/"@ + mod_name@ + "."@ + suffix@,
{
    concat5(root, "/locale/zh-CN/", mod_name, ".", suffix)
}

/// The path of a file at the root of a pack: `{root}/{file}`.
pub fn root_entry_path(root: &str, file: &str) -> (r: String)
    ensures
        r@ == root@ + "/"@ + file@,
{
    concat3(root, "/", file)
}

/// A name with a date: `{name}_{date}`.
pub fn dated_name(name: &str, date: &str) -> (r: String)
    ensures
        r@ == name@ + "_"@ + date@,
{
    concat3(name, "_", date)
}

/// Builds the pack file of one mod from its cached locale: all Chinese files
/// of the mod merged into one INI document (files that do not parse are
/// passed over and named in the second result), rendered as text; in protect
/// mode with the base game's keys at hand, a mod one of whose keys is among
/// them is packed disabled.
pub fn pack_mod_file(
    pack_name: &str,
    mod_name: &str,
    locale: &LocaleInfo,
    protect: bool,
    base_keys: Option<&std::collections::HashMap<String, String>>,
) -> (r: (PackEntry, Vec<String>))
    ensures
        match assoc_get(locale@.0, target_lang()) {
            None => r.0 is Skip && r.1@.len() == 0,
            Some(files) => {
                let doc = set_all(ini_new_view(), pack_triples(files));
                let overrides = protect && match base_keys {
                    Some(m) => exists|i: int| 0 <= i < all_triples(doc).len() && overrides_base(
                        #[trigger] all_triples(doc)[i],
                        text_hash_map_contents(*m),
                    ),
                    None => false,
                };
                &&& r.0 matches PackEntry::File { path, content } && path@ == pack_name@ + "/locale/zh-CN/"@ + mod_name@
                    + "."@ + pack_suffix(overrides) && content@ == spec_ini_text(doc)
                &&& views(r.1@) == unreadable_files(files)
            },
        },
{
    proof {
        reveal_strlit("zh-CN");
        assert("zh-CN"@ =~= target_lang());
    }
    let target = match lang_map_get(&locale.contents, TARGET_LANG) {
        Some(li) => li,
        None => return (PackEntry::Skip, Vec::new()),
    };
    let files = text_map_pairs(&target.contents);
    let ghost fv = files.deep_view();
    assert(fv == target@);
    assert(assoc_get(locale@.0, target_lang()) == Some(fv));
    let mut merged = ini_new();
    let mut unreadable: Vec<String> = Vec::new();
    let mut i: usize = 0;
    while i < files.len()
        invariant
            0 <= i <= files.len(),
            fv == files.deep_view(),
            ini_contents(merged) == set_all(ini_new_view(), pack_triples(fv.take(i as int))),
            views(unreadable@) == unreadable_files(fv.take(i as int)),
        decreases files.len() - i,
    {
        assert(fv.take(i + 1).drop_last() =~= fv.take(i as int));
        assert(fv.take(i + 1).last() == fv[i as int]);
        assert(fv[i as int] == (files[i as int].0@, files[i as int].1@));
        match str_to_ini(files[i].1.as_str()) {
            Ok(doc) => {
                proof {
                    lemma_set_all_append(ini_new_view(), pack_triples(fv.take(i as int)), all_triples(ini_contents(doc)));
                }
                set_all_from(&mut merged, &doc);
                assert(unreadable_files(fv.take(i as int)) + Seq::<Seq<char>>::empty() =~= unreadable_files(fv.take(i as int)));
            },
            Err(_) => {
                let ghost before = unreadable@;
                unreadable.push(files[i].0.clone());
                assert(views(unreadable@) =~= views(before).push(fv[i as int].0));
                assert(pack_triples(fv.take(i as int)) + Seq::<Triple>::empty() =~= pack_triples(fv.take(i as int)));
            },
        }
        i += 1;
    }
    assert(fv.take(files.len() as int) =~= fv);
    let text = ini_write(&merged);
    let overrides = protect && match base_keys {
        Some(m) => has_base_overlap(&merged, m),
        None => false,
    };
    let suffix = if overrides {
        "cfg.disabled"
    } else {
        "cfg"
    };
    let path = locale_entry_path(pack_name, mod_name, suffix);
    assert(suffix@ == pack_suffix(overrides));
    (PackEntry::File { path, content: text }, unreadable)
}

/// The dependencies a pack declares: the base game only. The pack names none
/// of the mods it translates; a translation of a mod that is not installed is
/// simply not loaded.
pub fn pack_dependencies() -> (r: Vec<String>)
    ensures
        views(r@) == seq!["base >= 2.1"@],
{
    let mut deps: Vec<String> = Vec::new();
    deps.push(to_string("base >= 2.1"));
    assert(views(deps@) =~= seq!["base >= 2.1"@]);
    deps
}

/// The description of a pack holding `count` mods' translations.
pub fn pack_description(count: usize) -> (r: String)
    ensures
        r@ == "包含 "@ + decimal_text(count as nat) + " 个模组的 AI 中文翻译。在模组官网上查看详细更新信息。手动解压可以按需求启用翻译，请查看 locale/zh-CN/ 下的 toggle_py 文件。默认禁用了所有会覆盖原版游戏词条的 mod 的翻译内容。联机时建议所有玩家都使用解压版本的 mod，并且手动运行 Python 脚本只启用对应翻译。"@,
{
    let num = usize_text(count);
    concat3("包含 ", num.as_str(), " 个模组的 AI 中文翻译。在模组官网上查看详细更新信息。手动解压可以按需求启用翻译，请查看 locale/zh-CN/ 下的 toggle_py 文件。默认禁用了所有会覆盖原版游戏词条的 mod 的翻译内容。联机时建议所有玩家都使用解压版本的 mod，并且手动运行 Python 脚本只启用对应翻译。")
}

} // verus!
