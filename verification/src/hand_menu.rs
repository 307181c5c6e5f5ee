//! Hand menu state: the catalog grouped by plugin, the current selection,
//! and the palm-up visibility with hysteresis.

use rustc_hash::FxHashMap;
use vstd::prelude::*;

use crate::engine::{catalog_view, CatalogEntry, CatalogEntryView};
use crate::text::{
    lemma_str_lt_irreflexive, lemma_str_lt_total, lemma_str_lt_transitive, str_less, str_lt,
};

verus! {

/// The hasher of `FxHashMap`.
#[verifier::external_type_specification]
#[verifier::external_body]
pub struct ExFxBuildHasher(rustc_hash::FxBuildHasher);

/// The three columns of the hand menu.
#[derive(Debug, Clone, Copy, PartialEq, Eq, Hash, Structural)]
pub enum MenuLevel {
    Tag,
    Plugin,
    Module,
}

/// One module of the catalog as the menu lists it.
pub struct ModuleEntry {
    pub model_slug: String,
    pub display_name: String,
    pub plugin_slug: String,
    pub tags: Vec<String>,
}

/// All modules of one plugin.
pub struct PluginGroup {
    pub plugin_slug: String,
    pub display_name: String,
    pub modules: Vec<ModuleEntry>,
}

/// The text of a module entry.
pub ghost struct ModuleEntryView {
    pub model_slug: Seq<char>,
    pub display_name: Seq<char>,
    pub plugin_slug: Seq<char>,
    pub tags: Seq<Seq<char>>,
}

/// The text of a plugin group.
pub ghost struct PluginGroupView {
    pub plugin_slug: Seq<char>,
    pub display_name: Seq<char>,
    pub modules: Seq<ModuleEntryView>,
}

/// The views of a sequence of strings.
pub open spec fn string_views(s: Seq<String>) -> Seq<Seq<char>> {
    s.map_values(|t: String| t@)
}

impl View for ModuleEntry {
    type V = ModuleEntryView;

    open spec fn view(&self) -> ModuleEntryView {
        ModuleEntryView {
            model_slug: self.model_slug@,
            display_name: self.display_name@,
            plugin_slug: self.plugin_slug@,
            tags: string_views(self.tags@),
        }
    }
}

/// The views of a sequence of module entries.
pub open spec fn module_views(s: Seq<ModuleEntry>) -> Seq<ModuleEntryView> {
    s.map_values(|m: ModuleEntry| m@)
}

impl View for PluginGroup {
    type V = PluginGroupView;

    open spec fn view(&self) -> PluginGroupView {
        PluginGroupView {
            plugin_slug: self.plugin_slug@,
            display_name: self.display_name@,
            modules: module_views(self.modules@),
        }
    }
}

/// The views of a sequence of plugin groups.
pub open spec fn plugin_views(s: Seq<PluginGroup>) -> Seq<PluginGroupView> {
    s.map_values(|g: PluginGroup| g@)
}

// ── Copies ──────────────────────────────────────────────────────────────────

fn clone_strings(s: &Vec<String>) -> (out: Vec<String>)
    ensures
        string_views(out@) == string_views(s@),
{
    let mut out: Vec<String> = Vec::new();
    let mut i: usize = 0;
    while i < s.len()
        invariant
            i <= s@.len(),
            string_views(out@) == string_views(s@.subrange(0, i as int)),
        decreases s@.len() - i,
    {
        let ghost prev = out@;
        let item = s[i].clone();
        out.push(item);
        assert(s@.subrange(0, i + 1) == s@.subrange(0, i as int).push(s@[i as int]));
        assert(string_views(prev.push(item)) =~= string_views(prev).push(item@));
        assert(string_views(s@.subrange(0, i as int).push(s@[i as int])) =~= string_views(
            s@.subrange(0, i as int),
        ).push(s@[i as int]@));
        i = i + 1;
    }
    assert(s@.subrange(0, s@.len() as int) == s@);
    out
}

fn clone_module(m: &ModuleEntry) -> (out: ModuleEntry)
    ensures
        out@ == m@,
{
    ModuleEntry {
        model_slug: m.model_slug.clone(),
        display_name: m.display_name.clone(),
        plugin_slug: m.plugin_slug.clone(),
        tags: clone_strings(&m.tags),
    }
}

/// A field-by-field copy of a list of module entries.
pub fn clone_modules(modules: &[ModuleEntry]) -> (out: Vec<ModuleEntry>)
    ensures
        module_views(out@) == module_views(modules@),
{
    let mut out: Vec<ModuleEntry> = Vec::new();
    let mut i: usize = 0;
    while i < modules.len()
        invariant
            i <= modules@.len(),
            module_views(out@) == module_views(modules@.subrange(0, i as int)),
        decreases modules@.len() - i,
    {
        let ghost prev = out@;
        let item = clone_module(&modules[i]);
        out.push(item);
        assert(modules@.subrange(0, i + 1) == modules@.subrange(0, i as int).push(modules@[i as int]));
        assert(module_views(prev.push(item)) =~= module_views(prev).push(item@));
        assert(module_views(modules@.subrange(0, i as int).push(modules@[i as int])) =~= module_views(
            modules@.subrange(0, i as int),
        ).push(modules@[i as int]@));
        i = i + 1;
    }
    assert(modules@.subrange(0, modules@.len() as int) == modules@);
    out
}

fn clone_plugin(g: &PluginGroup) -> (out: PluginGroup)
    ensures
        out@ == g@,
{
    PluginGroup {
        plugin_slug: g.plugin_slug.clone(),
        display_name: g.display_name.clone(),
        modules: clone_modules(g.modules.as_slice()),
    }
}

/// A field-by-field copy of a list of plugin groups.
pub fn clone_plugins(plugins: &[PluginGroup]) -> (out: Vec<PluginGroup>)
    ensures
        plugin_views(out@) == plugin_views(plugins@),
{
    let mut out: Vec<PluginGroup> = Vec::new();
    let mut i: usize = 0;
    while i < plugins.len()
        invariant
            i <= plugins@.len(),
            plugin_views(out@) == plugin_views(plugins@.subrange(0, i as int)),
        decreases plugins@.len() - i,
    {
        let ghost prev = out@;
        let item = clone_plugin(&plugins[i]);
        out.push(item);
        assert(plugins@.subrange(0, i + 1) == plugins@.subrange(0, i as int).push(plugins@[i as int]));
        assert(plugin_views(prev.push(item)) =~= plugin_views(prev).push(item@));
        assert(plugin_views(plugins@.subrange(0, i as int).push(plugins@[i as int])) =~= plugin_views(
            plugins@.subrange(0, i as int),
        ).push(plugins@[i as int]@));
        i = i + 1;
    }
    assert(plugins@.subrange(0, plugins@.len() as int) == plugins@);
    out
}

// ── Stable sort by display name ─────────────────────────────────────────────

/// The entries of `s` whose display name is `name`, in their order in `s`.
pub open spec fn named(s: Seq<ModuleEntryView>, name: Seq<char>) -> Seq<ModuleEntryView>
    decreases s.len(),
{
    if s.len() == 0 {
        Seq::empty()
    } else if s.last().display_name == name {
        named(s.drop_last(), name).push(s.last())
    } else {
        named(s.drop_last(), name)
    }
}

/// No entry of `s` has a display name that sorts before that of an earlier
/// entry.
pub open spec fn sorted_by_name(s: Seq<ModuleEntryView>) -> bool {
    forall|i: int, j: int|
        0 <= i < j < s.len() ==> !str_lt(#[trigger] s[j].display_name, #[trigger] s[i].display_name)
}

/// `out` is `inp` sorted by display name, entries with the same display
/// name keeping their order in `inp` (the result of a stable sort).
pub open spec fn stable_sorted_by_name(out: Seq<ModuleEntryView>, inp: Seq<ModuleEntryView>) -> bool {
    &&& sorted_by_name(out)
    &&& forall|name: Seq<char>| #[trigger] named(out, name) == named(inp, name)
}

proof fn lemma_named_append(a: Seq<ModuleEntryView>, b: Seq<ModuleEntryView>, name: Seq<char>)
    ensures
        named(a + b, name) == named(a, name) + named(b, name),
    decreases b.len(),
{
    if b.len() == 0 {
        assert(a + b =~= a);
    } else {
        lemma_named_append(a, b.drop_last(), name);
        assert((a + b).drop_last() =~= a + b.drop_last());
        assert((a + b).last() == b.last());
    }
}

proof fn lemma_named_absent(s: Seq<ModuleEntryView>, name: Seq<char>)
    requires
        forall|j: int| 0 <= j < s.len() ==> s[j].display_name != name,
    ensures
        named(s, name) == Seq::<ModuleEntryView>::empty(),
    decreases s.len(),
{
    if s.len() > 0 {
        lemma_named_absent(s.drop_last(), name);
    }
}

proof fn lemma_named_single(x: ModuleEntryView, name: Seq<char>)
    ensures
        named(seq![x], name) == if x.display_name == name {
            seq![x]
        } else {
            Seq::<ModuleEntryView>::empty()
        },
{
    let s = seq![x];
    assert(s.drop_last() =~= Seq::<ModuleEntryView>::empty());
    assert(s.last() == x);
    assert(named(Seq::<ModuleEntryView>::empty(), name) == Seq::<ModuleEntryView>::empty());
    assert(Seq::<ModuleEntryView>::empty().push(x) =~= s);
}

/// Insert `item` into a list sorted by display name, after every entry whose
/// name does not sort after it.
fn insert_by_name(sorted: &mut Vec<ModuleEntry>, item: ModuleEntry)
    requires
        sorted_by_name(module_views(old(sorted)@)),
    ensures
        sorted_by_name(module_views(final(sorted)@)),
        forall|name: Seq<char>|
            #[trigger] named(module_views(final(sorted)@), name) == if item@.display_name == name {
                named(module_views(old(sorted)@), name).push(item@)
            } else {
                named(module_views(old(sorted)@), name)
            },
{
    let ghost old_views = module_views(sorted@);
    let n = sorted.len();
    let mut p: usize = 0;
    while p < n && !str_less(item.display_name.as_str(), sorted[p].display_name.as_str())
        invariant
            n == sorted@.len(),
            p <= n,
            old_views == module_views(sorted@),
            forall|i: int| 0 <= i < p ==> !str_lt(item@.display_name, #[trigger] old_views[i].display_name),
        decreases n - p,
    {
        p = p + 1;
    }
    let ghost x = item@;
    sorted.insert(p, item);
    let ghost new_views = module_views(sorted@);
    proof {
        assert(new_views =~= old_views.subrange(0, p as int) + seq![x] + old_views.subrange(p as int, n as int));
        // Every entry from `p` on sorts strictly after `x`.
        assert forall|j: int| p <= j < n implies str_lt(x.display_name, #[trigger] old_views[j].display_name) by {
            assert(str_lt(x.display_name, old_views[p as int].display_name));
            if j > p {
                assert(!str_lt(old_views[j].display_name, old_views[p as int].display_name));
                lemma_str_lt_total(old_views[j].display_name, old_views[p as int].display_name);
                if old_views[j].display_name != old_views[p as int].display_name {
                    lemma_str_lt_transitive(x.display_name, old_views[p as int].display_name, old_views[j].display_name);
                }
            }
        }
        assert forall|i: int, j: int| 0 <= i < j < new_views.len() implies !str_lt(
            #[trigger] new_views[j].display_name,
            #[trigger] new_views[i].display_name,
        ) by {
            if j < p {
                assert(new_views[i] == old_views[i] && new_views[j] == old_views[j]);
            } else if j == p {
                assert(new_views[i] == old_views[i]);
            } else if i == p {
                assert(new_views[j] == old_views[j - 1]);
                if str_lt(old_views[j - 1].display_name, x.display_name) {
                    lemma_str_lt_transitive(old_views[j - 1].display_name, x.display_name, old_views[j - 1].display_name);
                    lemma_str_lt_irreflexive(old_views[j - 1].display_name);
                }
            } else if i < p {
                assert(new_views[i] == old_views[i] && new_views[j] == old_views[j - 1]);
                if str_lt(old_views[j - 1].display_name, old_views[i].display_name) {
                    assert(!str_lt(x.display_name, old_views[i].display_name));
                    lemma_str_lt_total(x.display_name, old_views[i].display_name);
                    if x.display_name != old_views[i].display_name {
                        lemma_str_lt_transitive(old_views[j - 1].display_name, old_views[i].display_name, x.display_name);
                    }
                    lemma_str_lt_transitive(old_views[j - 1].display_name, x.display_name, old_views[j - 1].display_name);
                    lemma_str_lt_irreflexive(old_views[j - 1].display_name);
                }
            } else {
                assert(new_views[i] == old_views[i - 1] && new_views[j] == old_views[j - 1]);
            }
        }
        assert forall|name: Seq<char>| #[trigger] named(new_views, name) == if x.display_name == name {
            named(old_views, name).push(x)
        } else {
            named(old_views, name)
        } by {
            let pre = old_views.subrange(0, p as int);
            let post = old_views.subrange(p as int, n as int);
            assert(old_views =~= pre + post);
            lemma_named_append(pre, post, name);
            lemma_named_append(pre + seq![x], post, name);
            lemma_named_append(pre, seq![x], name);
            lemma_named_single(x, name);
            if x.display_name == name {
                assert forall|j: int| 0 <= j < post.len() implies post[j].display_name != name by {
                    assert(post[j] == old_views[p + j]);
                    assert(str_lt(x.display_name, old_views[p + j].display_name));
                    lemma_str_lt_irreflexive(x.display_name);
                }
                lemma_named_absent(post, name);
                assert(named(pre, name) + named(post, name) =~= named(pre, name));
                assert(named(pre, name) + seq![x] =~= named(pre, name).push(x));
            } else {
                assert(named(pre, name) + Seq::<ModuleEntryView>::empty() =~= named(pre, name));
            }
        }
    }
}

/// The entries of `modules`, stably sorted by display name.
pub fn sort_by_name(modules: Vec<ModuleEntry>) -> (sorted: Vec<ModuleEntry>)
    ensures
        stable_sorted_by_name(module_views(sorted@), module_views(modules@)),
{
    let mut sorted: Vec<ModuleEntry> = Vec::new();
    let mut rest = modules;
    let ghost inp = module_views(rest@);
    let ghost total = rest@.len();
    // Entries are taken from the front by reversing once, so that each
    // `pop` yields the next entry in input order.
    let mut reversed: Vec<ModuleEntry> = Vec::new();
    while rest.len() > 0
        invariant
            inp == module_views(rest@) + module_views(reversed@).reverse(),
        decreases rest@.len(),
    {
        let ghost before_rest = rest@;
        let ghost before_rev = reversed@;
        let m = rest.pop().unwrap();
        assert(before_rest == rest@.push(m));
        assert(module_views(before_rest) =~= module_views(rest@).push(m@));
        reversed.push(m);
        assert(module_views(reversed@) =~= module_views(before_rev).push(m@));
        assert(module_views(reversed@).reverse() =~= seq![m@] + module_views(before_rev).reverse());
        assert(module_views(rest@).push(m@) + module_views(before_rev).reverse() =~= module_views(rest@) + (seq![m@] + module_views(before_rev).reverse()));
    }
    assert(module_views(rest@) =~= Seq::<ModuleEntryView>::empty());
    assert(inp =~= module_views(reversed@).reverse());
    let ghost mut done: int = 0;
    while reversed.len() > 0
        invariant
            0 <= done <= inp.len(),
            inp.len() == done + reversed@.len(),
            module_views(reversed@).reverse() == inp.subrange(done, inp.len() as int),
            sorted_by_name(module_views(sorted@)),
            forall|name: Seq<char>| #[trigger] named(module_views(sorted@), name) == named(inp.subrange(0, done), name),
        decreases reversed@.len(),
    {
        let ghost before_rev = reversed@;
        let m = reversed.pop().unwrap();
        proof {
            assert(module_views(before_rev) =~= module_views(reversed@).push(m@));
            assert(module_views(before_rev).reverse() =~= seq![m@] + module_views(reversed@).reverse());
            assert(inp[done] == m@) by {
                assert(inp.subrange(done, inp.len() as int)[0] == inp[done]);
            }
            let tail = module_views(reversed@).reverse();
            let whole = module_views(before_rev).reverse();
            assert(tail =~= whole.subrange(1, whole.len() as int));
            assert(whole == inp.subrange(done, inp.len() as int));
            assert(whole.subrange(1, whole.len() as int) =~= inp.subrange(done + 1, inp.len() as int));
        }
        let ghost x = m@;
        insert_by_name(&mut sorted, m);
        proof {
            assert(inp.subrange(0, done + 1).drop_last() =~= inp.subrange(0, done));
            assert(inp.subrange(0, done + 1).last() == x);
            done = done + 1;
        }
    }
    proof {
        assert(inp.subrange(0, done) =~= inp);
    }
    sorted
}

// ── Grouping the catalog by plugin ──────────────────────────────────────────

/// How the menu lists a catalog entry: under its model name, with no tags.
pub open spec fn entry_module(e: CatalogEntryView) -> ModuleEntryView {
    ModuleEntryView {
        model_slug: e.model_slug,
        display_name: e.model_name,
        plugin_slug: e.plugin_slug,
        tags: Seq::empty(),
    }
}

/// The modules of plugin `slug`, in catalog order.
pub open spec fn modules_of(cat: Seq<CatalogEntryView>, slug: Seq<char>) -> Seq<ModuleEntryView>
    decreases cat.len(),
{
    if cat.len() == 0 {
        Seq::empty()
    } else if cat.last().plugin_slug == slug {
        modules_of(cat.drop_last(), slug).push(entry_module(cat.last()))
    } else {
        modules_of(cat.drop_last(), slug)
    }
}

/// The modules of a plugin are its catalog entries, in catalog order, each
/// listed under its model slug, its model name as display name and its
/// plugin slug, with no tags.
pub proof fn lemma_modules_of_entries(cat: Seq<CatalogEntryView>, slug: Seq<char>)
    ensures
        modules_of(cat, slug) == cat.filter(|e: CatalogEntryView| e.plugin_slug == slug).map_values(
            |e: CatalogEntryView|
                ModuleEntryView {
                    model_slug: e.model_slug,
                    display_name: e.model_name,
                    plugin_slug: e.plugin_slug,
                    tags: Seq::empty(),
                },
        ),
    decreases cat.len(),
{
    reveal(Seq::filter);
    if cat.len() > 0 {
        lemma_modules_of_entries(cat.drop_last(), slug);
        let f = cat.drop_last().filter(|e: CatalogEntryView| e.plugin_slug == slug);
        let m = |e: CatalogEntryView|
            ModuleEntryView {
                model_slug: e.model_slug,
                display_name: e.model_name,
                plugin_slug: e.plugin_slug,
                tags: Seq::empty(),
            };
        assert(f.push(cat.last()).map_values(m) =~= f.map_values(m).push(m(cat.last())));
    }
}

/// Some catalog entry belongs to plugin `slug`.
pub open spec fn catalog_has_plugin(cat: Seq<CatalogEntryView>, slug: Seq<char>) -> bool {
    exists|j: int| 0 <= j < cat.len() && #[trigger] cat[j].plugin_slug == slug
}

/// Each string sorts strictly before every later one (so none repeats).
pub open spec fn strictly_sorted(s: Seq<Seq<char>>) -> bool {
    forall|i: int, j: int| 0 <= i < j < s.len() ==> str_lt(#[trigger] s[i], #[trigger] s[j])
}

/// `groups` is the catalog grouped by plugin: one group per plugin, in
/// ascending order of plugin slug, named after its slug, holding the
/// plugin's modules stably sorted by display name.
pub open spec fn groups_catalog(groups: Seq<PluginGroupView>, cat: Seq<CatalogEntryView>) -> bool {
    &&& strictly_sorted(groups.map_values(|g: PluginGroupView| g.plugin_slug))
    &&& forall|slug: Seq<char>|
        (exists|i: int| 0 <= i < groups.len() && #[trigger] groups[i].plugin_slug == slug)
            <==> catalog_has_plugin(cat, slug)
    &&& forall|i: int|
        0 <= i < groups.len() ==> {
            &&& (#[trigger] groups[i]).display_name == groups[i].plugin_slug
            &&& stable_sorted_by_name(groups[i].modules, modules_of(cat, groups[i].plugin_slug))
        }
}

/// Add `slug` to a strictly sorted list of slugs, unless it is there.
fn insert_slug(slugs: &mut Vec<String>, slug: &String)
    requires
        strictly_sorted(string_views(old(slugs)@)),
    ensures
        strictly_sorted(string_views(final(slugs)@)),
        forall|t: Seq<char>|
            #[trigger] string_views(final(slugs)@).contains(t) <==> (string_views(
                old(slugs)@,
            ).contains(t) || t == slug@),
{
    let ghost old_views = string_views(slugs@);
    let n = slugs.len();
    let mut p: usize = 0;
    while p < n && str_less(slugs[p].as_str(), slug.as_str())
        invariant
            n == slugs@.len(),
            p <= n,
            old_views == string_views(slugs@),
            forall|i: int| 0 <= i < p ==> str_lt(#[trigger] old_views[i], slug@),
        decreases n - p,
    {
        p = p + 1;
    }
    proof {
        // Every slug from `p` on sorts after the new one or equals it.
        assert forall|j: int| p <= j < n && old_views[j] != slug@ implies str_lt(slug@, #[trigger] old_views[j]) by {
            let q = old_views[p as int];
            assert(!str_lt(q, slug@));
            lemma_str_lt_total(q, slug@);
            if j > p {
                if q == slug@ {
                } else {
                    lemma_str_lt_transitive(slug@, q, old_views[j]);
                }
            }
        }
    }
    if p < n && slugs[p] == *slug {
        proof {
            assert forall|t: Seq<char>| #[trigger] string_views(slugs@).contains(t) <==> (old_views.contains(t) || t == slug@) by {
                if t == slug@ {
                    assert(old_views[p as int] == t);
                }
            }
        }
        return;
    }
    let ghost x = slug@;
    slugs.insert(p, slug.clone());
    proof {
        let new_views = string_views(slugs@);
        assert(new_views =~= old_views.subrange(0, p as int) + seq![x] + old_views.subrange(p as int, n as int));
        assert forall|j: int| p <= j < n implies str_lt(x, #[trigger] old_views[j]) by {
            if old_views[j] == x {
                // Only possible at `p`, which was ruled out above.
                if j > p {
                    assert(str_lt(old_views[p as int], old_views[j]));
                    let q = old_views[p as int];
                    lemma_str_lt_total(q, x);
                    if q != x {
                        lemma_str_lt_transitive(x, q, old_views[j]);
                        lemma_str_lt_irreflexive(x);
                    }
                }
            }
        }
        assert forall|i: int, j: int| 0 <= i < j < new_views.len() implies str_lt(
            #[trigger] new_views[i],
            #[trigger] new_views[j],
        ) by {
            if j < p {
                assert(new_views[i] == old_views[i] && new_views[j] == old_views[j]);
            } else if j == p {
                assert(new_views[i] == old_views[i]);
            } else if i == p {
                assert(new_views[j] == old_views[j - 1]);
            } else if i < p {
                assert(new_views[i] == old_views[i] && new_views[j] == old_views[j - 1]);
            } else {
                assert(new_views[i] == old_views[i - 1] && new_views[j] == old_views[j - 1]);
            }
        }
        assert forall|t: Seq<char>| #[trigger] new_views.contains(t) <==> (old_views.contains(t) || t == x) by {
            if new_views.contains(t) {
                let k = choose|k: int| 0 <= k < new_views.len() && new_views[k] == t;
                if k < p {
                    assert(old_views[k] == t);
                } else if k > p {
                    assert(old_views[k - 1] == t);
                }
            }
            if old_views.contains(t) {
                let k = choose|k: int| 0 <= k < old_views.len() && old_views[k] == t;
                if k < p {
                    assert(new_views[k] == t);
                } else {
                    assert(new_views[k + 1] == t);
                }
            }
            if t == x {
                assert(new_views[p as int] == t);
            }
        }
    }
}

/// The entries of `catalog` that belong to plugin `slug`, in catalog order,
/// as the menu lists them.
fn collect_modules(catalog: &[CatalogEntry], slug: &String) -> (modules: Vec<ModuleEntry>)
    ensures
        module_views(modules@) == modules_of(catalog_view(catalog@), slug@),
        module_views(modules@) == catalog_view(catalog@).filter(|e: CatalogEntryView| e.plugin_slug == slug@).map_values(
            |e: CatalogEntryView|
                ModuleEntryView {
                    model_slug: e.model_slug,
                    display_name: e.model_name,
                    plugin_slug: e.plugin_slug,
                    tags: Seq::empty(),
                },
        ),
{
    let ghost cv = catalog_view(catalog@);
    let mut modules: Vec<ModuleEntry> = Vec::new();
    let mut j: usize = 0;
    while j < catalog.len()
        invariant
            j <= catalog@.len(),
            cv == catalog_view(catalog@),
            module_views(modules@) == modules_of(cv.subrange(0, j as int), slug@),
        decreases catalog@.len() - j,
    {
        let e = &catalog[j];
        proof {
            assert(cv.subrange(0, j + 1).drop_last() =~= cv.subrange(0, j as int));
            assert(cv.subrange(0, j + 1).last() == e@);
        }
        if e.plugin_slug == *slug {
            let ghost prev = modules@;
            let m = ModuleEntry {
                model_slug: e.model_slug.clone(),
                display_name: e.model_name.clone(),
                plugin_slug: e.plugin_slug.clone(),
                tags: Vec::new(),
            };
            proof {
                assert(string_views(m.tags@) =~= Seq::<Seq<char>>::empty());
                assert(m@ == entry_module(e@));
            }
            modules.push(m);
            assert(module_views(modules@) =~= module_views(prev).push(m@));
        }
        j = j + 1;
    }
    assert(cv.subrange(0, catalog@.len() as int) =~= cv);
    proof {
        lemma_modules_of_entries(cv, slug@);
    }
    modules
}

/// The catalog grouped by plugin (see `groups_catalog`).
pub fn group_catalog(catalog: &[CatalogEntry]) -> (groups: Vec<PluginGroup>)
    ensures
        groups_catalog(plugin_views(groups@), catalog_view(catalog@)),
        forall|i: int|
            0 <= i < plugin_views(groups@).len() ==> stable_sorted_by_name(
                (#[trigger] plugin_views(groups@)[i]).modules,
                catalog_view(catalog@).filter(
                    |e: CatalogEntryView| e.plugin_slug == plugin_views(groups@)[i].plugin_slug,
                ).map_values(
                    |e: CatalogEntryView|
                        ModuleEntryView {
                            model_slug: e.model_slug,
                            display_name: e.model_name,
                            plugin_slug: e.plugin_slug,
                            tags: Seq::empty(),
                        },
                ),
            ),
{
    let ghost cv = catalog_view(catalog@);
    let mut slugs: Vec<String> = Vec::new();
    let mut j: usize = 0;
    while j < catalog.len()
        invariant
            j <= catalog@.len(),
            cv == catalog_view(catalog@),
            strictly_sorted(string_views(slugs@)),
            forall|t: Seq<char>|
                #[trigger] string_views(slugs@).contains(t) <==> catalog_has_plugin(cv.subrange(0, j as int), t),
        decreases catalog@.len() - j,
    {
        let ghost before = string_views(slugs@);
        insert_slug(&mut slugs, &catalog[j].plugin_slug);
        proof {
            assert forall|t: Seq<char>| #[trigger] string_views(slugs@).contains(t) <==> catalog_has_plugin(cv.subrange(0, j + 1), t) by {
                let sub = cv.subrange(0, j + 1);
                if catalog_has_plugin(sub, t) {
                    let k = choose|k: int| 0 <= k < sub.len() && #[trigger] sub[k].plugin_slug == t;
                    if k < j {
                        assert(cv.subrange(0, j as int)[k].plugin_slug == t);
                    } else {
                        assert(cv[j as int] == catalog@[j as int]@);
                    }
                }
                if catalog_has_plugin(cv.subrange(0, j as int), t) {
                    let k = choose|k: int| 0 <= k < j && #[trigger] cv.subrange(0, j as int)[k].plugin_slug == t;
                    assert(sub[k].plugin_slug == t);
                }
                if t == catalog@[j as int].plugin_slug@ {
                    assert(sub[j as int].plugin_slug == t);
                }
            }
        }
        j = j + 1;
    }
    assert(cv.subrange(0, catalog@.len() as int) =~= cv);
    let ghost sv = string_views(slugs@);
    let mut groups: Vec<PluginGroup> = Vec::new();
    let mut g: usize = 0;
    while g < slugs.len()
        invariant
            g <= slugs@.len(),
            sv == string_views(slugs@),
            cv == catalog_view(catalog@),
            groups@.len() == g,
            forall|i: int|
                0 <= i < g ==> {
                    &&& (#[trigger] plugin_views(groups@)[i]).plugin_slug == sv[i]
                    &&& plugin_views(groups@)[i].display_name == sv[i]
                    &&& stable_sorted_by_name(
                        plugin_views(groups@)[i].modules,
                        modules_of(cv, sv[i]),
                    )
                },
        decreases slugs@.len() - g,
    {
        let modules = sort_by_name(collect_modules(catalog, &slugs[g]));
        let group = PluginGroup {
            plugin_slug: slugs[g].clone(),
            display_name: slugs[g].clone(),
            modules,
        };
        let ghost prev = groups@;
        groups.push(group);
        assert(plugin_views(groups@) =~= plugin_views(prev).push(group@));
        g = g + 1;
    }
    proof {
        let gv = plugin_views(groups@);
        assert(gv.map_values(|x: PluginGroupView| x.plugin_slug) =~= sv);
        assert forall|slug: Seq<char>|
            (exists|i: int| 0 <= i < gv.len() && #[trigger] gv[i].plugin_slug == slug)
                <==> catalog_has_plugin(cv, slug) by {
            if exists|i: int| 0 <= i < gv.len() && #[trigger] gv[i].plugin_slug == slug {
                let i = choose|i: int| 0 <= i < gv.len() && #[trigger] gv[i].plugin_slug == slug;
                assert(sv[i] == slug);
                assert(sv.contains(slug));
            }
            if catalog_has_plugin(cv, slug) {
                assert(sv.contains(slug));
                let i = choose|i: int| 0 <= i < sv.len() && sv[i] == slug;
                assert(gv[i].plugin_slug == slug);
            }
        }
        assert forall|i: int| 0 <= i < gv.len() implies stable_sorted_by_name(
            (#[trigger] gv[i]).modules,
            cv.filter(|e: CatalogEntryView| e.plugin_slug == gv[i].plugin_slug).map_values(
                |e: CatalogEntryView|
                    ModuleEntryView {
                        model_slug: e.model_slug,
                        display_name: e.model_name,
                        plugin_slug: e.plugin_slug,
                        tags: Seq::empty(),
                    },
            ),
        ) by {
            lemma_modules_of_entries(cv, gv[i].plugin_slug);
        }
    }
    groups
}

// ── Menu state ──────────────────────────────────────────────────────────────

/// Where the palm-up amount stands relative to the two visibility
/// thresholds: at or above the opening one, below the closing one, or in
/// between (the closing threshold lies below the opening one).
#[derive(Debug, Clone, Copy, PartialEq, Eq, Structural)]
pub enum PalmLevel {
    AboveOpen,
    Between,
    BelowClose,
}

/// The state of the hand menu that does not depend on time or position.
pub struct HandMenuState {
    pub all_plugins: Vec<PluginGroup>,
    pub tags: Vec<String>,
    pub selected_tag: Option<usize>,
    pub filtered_plugins: Vec<PluginGroup>,
    pub selected_plugin: Option<usize>,
    pub filtered_modules: Vec<ModuleEntry>,
    pub visible: bool,
    pub scroll_offsets: FxHashMap<MenuLevel, usize>,
}

impl HandMenuState {
    /// The menu for `catalog`: its plugins grouped and sorted, every plugin
    /// listed, nothing selected, hidden.
    pub fn from_catalog(catalog: &[CatalogEntry]) -> (state: Self)
        ensures
            groups_catalog(plugin_views(state.all_plugins@), catalog_view(catalog@)),
            forall|i: int|
                0 <= i < plugin_views(state.all_plugins@).len() ==> stable_sorted_by_name(
                    (#[trigger] plugin_views(state.all_plugins@)[i]).modules,
                    catalog_view(catalog@).filter(
                        |e: CatalogEntryView| e.plugin_slug == plugin_views(state.all_plugins@)[i].plugin_slug,
                    ).map_values(
                        |e: CatalogEntryView|
                            ModuleEntryView {
                                model_slug: e.model_slug,
                                display_name: e.model_name,
                                plugin_slug: e.plugin_slug,
                                tags: Seq::empty(),
                            },
                    ),
                ),
            plugin_views(state.filtered_plugins@) == plugin_views(state.all_plugins@),
            state.tags@.len() == 0,
            state.selected_tag is None,
            state.selected_plugin is None,
            state.filtered_modules@.len() == 0,
            !state.visible,
            state.scroll_offsets@ == Map::<MenuLevel, usize>::empty(),
    {
        let all_plugins = group_catalog(catalog);
        let filtered_plugins = clone_plugins(all_plugins.as_slice());
        HandMenuState {
            all_plugins,
            tags: Vec::new(),
            selected_tag: None,
            filtered_plugins,
            selected_plugin: None,
            filtered_modules: Vec::new(),
            visible: false,
            scroll_offsets: FxHashMap::default(),
        }
    }

    /// Show or hide the menu from the palm-up amount, with hysteresis: a
    /// hidden menu opens only at or above the opening threshold, a visible
    /// one closes (see `close`) only below the closing threshold.
    pub fn update_palm_visibility(&mut self, level: PalmLevel)
        ensures
            if !old(self).visible && level == PalmLevel::AboveOpen {
                &&& final(self).visible
                &&& final(self).all_plugins == old(self).all_plugins
                &&& final(self).tags == old(self).tags
                &&& final(self).selected_tag == old(self).selected_tag
                &&& final(self).filtered_plugins == old(self).filtered_plugins
                &&& final(self).selected_plugin == old(self).selected_plugin
                &&& final(self).filtered_modules == old(self).filtered_modules
                &&& final(self).scroll_offsets == old(self).scroll_offsets
            } else if old(self).visible && level == PalmLevel::BelowClose {
                closed(*old(self), *final(self))
            } else {
                *final(self) == *old(self)
            },
    {
        if !self.visible && level == PalmLevel::AboveOpen {
            self.visible = true;
        } else if self.visible && level == PalmLevel::BelowClose {
            self.close();
        }
    }

    /// Close the menu and reset all transient state.
    pub fn close(&mut self)
        ensures
            closed(*old(self), *final(self)),
    {
        self.visible = false;
        self.selected_tag = None;
        self.selected_plugin = None;
        self.filtered_modules = Vec::new();
        self.scroll_offsets = FxHashMap::default();
        self.refilter_plugins();
    }

    /// Select a tag (or none) and reset the plugin selection.
    pub fn select_tag(&mut self, tag_idx: Option<usize>)
        ensures
            final(self).selected_tag == tag_idx,
            final(self).selected_plugin is None,
            final(self).filtered_modules@.len() == 0,
            plugin_views(final(self).filtered_plugins@) == plugin_views(old(self).all_plugins@),
            final(self).all_plugins == old(self).all_plugins,
            final(self).tags == old(self).tags,
            final(self).visible == old(self).visible,
            final(self).scroll_offsets == old(self).scroll_offsets,
    {
        self.selected_tag = tag_idx;
        self.selected_plugin = None;
        self.filtered_modules = Vec::new();
        self.refilter_plugins();
    }

    /// Select a plugin (or none) and list its modules: those of the
    /// selected listed plugin, or none when no plugin at that index is listed.
    pub fn select_plugin(&mut self, plugin_idx: Option<usize>)
        ensures
            final(self).selected_plugin == plugin_idx,
            module_views(final(self).filtered_modules@) == match plugin_idx {
                Some(i) => if i < old(self).filtered_plugins@.len() {
                    plugin_views(old(self).filtered_plugins@)[i as int].modules
                } else {
                    Seq::<ModuleEntryView>::empty()
                },
                None => Seq::<ModuleEntryView>::empty(),
            },
            final(self).all_plugins == old(self).all_plugins,
            final(self).tags == old(self).tags,
            final(self).selected_tag == old(self).selected_tag,
            final(self).filtered_plugins == old(self).filtered_plugins,
            final(self).visible == old(self).visible,
            final(self).scroll_offsets == old(self).scroll_offsets,
    {
        self.selected_plugin = plugin_idx;
        self.filtered_modules = match plugin_idx {
            Some(idx) => if idx < self.filtered_plugins.len() {
                clone_modules(self.filtered_plugins[idx].modules.as_slice())
            } else {
                Vec::new()
            },
            None => Vec::new(),
        };
        proof {
            assert(module_views(Seq::<ModuleEntry>::empty()) =~= Seq::<ModuleEntryView>::empty());
        }
    }

    /// List every plugin again (tags do not filter yet).
    fn refilter_plugins(&mut self)
        ensures
            plugin_views(final(self).filtered_plugins@) == plugin_views(old(self).all_plugins@),
            final(self).all_plugins == old(self).all_plugins,
            final(self).tags == old(self).tags,
            final(self).selected_tag == old(self).selected_tag,
            final(self).selected_plugin == old(self).selected_plugin,
            final(self).filtered_modules == old(self).filtered_modules,
            final(self).visible == old(self).visible,
            final(self).scroll_offsets == old(self).scroll_offsets,
    {
        self.filtered_plugins = clone_plugins(self.all_plugins.as_slice());
    }
}

/// `after` is `before` closed: hidden, nothing selected, no module listed,
/// no scroll offset kept, every plugin listed again; the catalog and tags
/// unchanged.
pub open spec fn closed(before: HandMenuState, after: HandMenuState) -> bool {
    &&& !after.visible
    &&& after.selected_tag is None
    &&& after.selected_plugin is None
    &&& after.filtered_modules@.len() == 0
    &&& after.scroll_offsets@ == Map::<MenuLevel, usize>::empty()
    &&& plugin_views(after.filtered_plugins@) == plugin_views(before.all_plugins@)
    &&& after.all_plugins == before.all_plugins
    &&& after.tags == before.tags
}

} // verus!
