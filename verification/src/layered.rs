//! Layered configuration: user, project and local layers merged onto a
//! base configuration, later layers overriding earlier ones.
use vstd::prelude::*;

use crate::text::{cat, chars_of, str_eq};

verus! {

/// A configuration value as the merge sees it: a table of keyed values, or
/// any other value (string, number, boolean, date, array), which the merge
/// never looks into and which is known here by a handle.
#[derive(Debug)]
pub enum ConfigValue {
    Table(Vec<(String, ConfigValue)>),
    Leaf(u64),
}

/// A configuration value as a mathematical tree.
pub enum ValueTree {
    Table(Seq<(Seq<char>, ValueTree)>),
    Leaf(u64),
}

/// The tree of a configuration value.
pub open spec fn tree_of(v: ConfigValue) -> ValueTree
    decreases v, 0nat,
{
    match v {
        ConfigValue::Table(es) => ValueTree::Table(entries_of(es@)),
        ConfigValue::Leaf(h) => ValueTree::Leaf(h),
    }
}

/// The entries of a table as keys and trees.
pub open spec fn entries_of(s: Seq<(String, ConfigValue)>) -> Seq<(Seq<char>, ValueTree)>
    decreases s, s.len(),
{
    if s.len() == 0 {
        seq![]
    } else {
        entries_of(s.drop_last()).push((s.last().0@, tree_of(s.last().1)))
    }
}

/// The index of the first entry of `s` with key `k`.
pub open spec fn find_key(s: Seq<(Seq<char>, ValueTree)>, k: Seq<char>) -> Option<int>
    decreases s.len(),
{
    if s.len() == 0 {
        None
    } else if s[0].0 == k {
        Some(0)
    } else {
        match find_key(s.drop_first(), k) {
            Some(i) => Some(i + 1),
            None => None,
        }
    }
}

/// `over` merged onto `base`: when both are tables, each entry of `over`
/// in turn is merged onto the entry of the same key, or added when there is
/// none; otherwise `over` replaces `base`.
pub open spec fn merged(base: ValueTree, over: ValueTree) -> ValueTree
    decreases over, 0nat,
{
    match (base, over) {
        (ValueTree::Table(be), ValueTree::Table(oe)) => ValueTree::Table(
            merge_into(be, oe, oe.len()),
        ),
        _ => over,
    }
}

/// The entries `be` with the first `n` entries of `oe` merged in.
pub open spec fn merge_into(
    be: Seq<(Seq<char>, ValueTree)>,
    oe: Seq<(Seq<char>, ValueTree)>,
    n: nat,
) -> Seq<(Seq<char>, ValueTree)>
    decreases oe, n,
{
    if n == 0 || n > oe.len() {
        be
    } else {
        let acc = merge_into(be, oe, (n - 1) as nat);
        let e = oe[n - 1];
        match find_key(acc, e.0) {
            Some(i) => if 0 <= i < acc.len() {
                acc.update(i, (acc[i].0, merged(acc[i].1, e.1)))
            } else {
                acc
            },
            None => acc.push(e),
        }
    }
}

pub proof fn lemma_entries_of(s: Seq<(String, ConfigValue)>)
    ensures
        entries_of(s).len() == s.len(),
        forall|j: int|
            0 <= j < s.len() ==> #[trigger] entries_of(s)[j] == (s[j].0@, tree_of(s[j].1)),
    decreases s.len(),
{
    if s.len() > 0 {
        lemma_entries_of(s.drop_last());
        assert forall|j: int| 0 <= j < s.len() implies #[trigger] entries_of(s)[j] == (
            s[j].0@,
            tree_of(s[j].1),
        ) by {
            if j < s.len() - 1 {
                assert(s.drop_last()[j] == s[j]);
            }
        }
    }
}

proof fn lemma_entries_update(s: Seq<(String, ConfigValue)>, i: int, x: (String, ConfigValue))
    requires
        0 <= i < s.len(),
    ensures
        entries_of(s.update(i, x)) == entries_of(s).update(i, (x.0@, tree_of(x.1))),
{
    lemma_entries_of(s);
    lemma_entries_of(s.update(i, x));
    assert(entries_of(s.update(i, x)) =~= entries_of(s).update(i, (x.0@, tree_of(x.1))));
}

proof fn lemma_find_key_at(t: Seq<(Seq<char>, ValueTree)>, k: Seq<char>, i: int)
    requires
        0 <= i <= t.len(),
        forall|j: int| 0 <= j < i ==> (#[trigger] t[j]).0 != k,
        i < t.len() ==> t[i].0 == k,
    ensures
        i < t.len() ==> find_key(t, k) == Some(i),
        i == t.len() ==> find_key(t, k) is None,
    decreases i,
{
    if t.len() > 0 && i > 0 {
        let u = t.drop_first();
        assert forall|j: int| 0 <= j < i - 1 implies (#[trigger] u[j]).0 != k by {
            assert(u[j] == t[j + 1]);
        }
        if i < t.len() {
            assert(u[i - 1] == t[i]);
        }
        lemma_find_key_at(u, k, i - 1);
    }
}

fn find_entry(es: &Vec<(String, ConfigValue)>, k: &str) -> (r: Option<usize>)
    ensures
        match find_key(entries_of(es@), k@) {
            Some(i) => r == Some(i as usize) && 0 <= i < es.len(),
            None => r is None,
        },
{
    proof {
        lemma_entries_of(es@);
    }
    let mut i: usize = 0;
    while i < es.len()
        invariant
            0 <= i <= es.len(),
            entries_of(es@).len() == es.len(),
            forall|j: int|
                0 <= j < es.len() ==> #[trigger] entries_of(es@)[j] == (es@[j].0@, tree_of(es@[j].1)),
            forall|j: int| 0 <= j < i ==> (#[trigger] entries_of(es@)[j]).0 != k@,
        decreases es.len() - i,
    {
        if str_eq(es[i].0.as_str(), k) {
            proof {
                lemma_find_key_at(entries_of(es@), k@, i as int);
            }
            return Some(i);
        }
        i = i + 1;
    }
    proof {
        lemma_find_key_at(entries_of(es@), k@, i as int);
    }
    None
}

/// Merges `over` onto `base` (see `merged`).
pub fn merge_values(base: &mut ConfigValue, over: ConfigValue)
    ensures
        tree_of(*final(base)) == merged(tree_of(*old(base)), tree_of(over)),
    decreases over,
{
    let both = match (&*base, &over) {
        (ConfigValue::Table(_), ConfigValue::Table(_)) => true,
        _ => false,
    };
    if !both {
        *base = over;
        return;
    }
    let ghost old_base = *base;
    let mut tmp = ConfigValue::Leaf(0);
    std::mem::swap(&mut tmp, base);
    let mut be = match tmp {
        ConfigValue::Table(v) => v,
        ConfigValue::Leaf(_) => Vec::new(),
    };
    let ghost over_v = over;
    let ghost oe0 = over_v->Table_0;
    let mut oe = match over {
        ConfigValue::Table(v) => v,
        ConfigValue::Leaf(_) => Vec::new(),
    };
    let ghost eb0 = entries_of(be@);
    let ghost eo = entries_of(oe0@);
    proof {
        lemma_entries_of(oe0@);
        assert(oe@.skip(0) =~= oe0@);
    }
    let n = oe.len();
    let mut j: usize = 0;
    while j < n
        invariant
            n == oe0@.len(),
            0 <= j <= n,
            over_v == ConfigValue::Table(oe0),
            over_v == over,
            oe@ == oe0@.skip(j as int),
            eo == entries_of(oe0@),
            eo.len() == n,
            forall|m: int| 0 <= m < n ==> #[trigger] eo[m] == (oe0@[m].0@, tree_of(oe0@[m].1)),
            entries_of(be@) == merge_into(eb0, eo, j as nat),
        decreases n - j,
    {
        let e = oe.remove(0);
        assert(e == oe0@[j as int]);
        let (k, v) = e;
        proof {
            assert(oe0 == over_v->Table_0);
            assert(decreases_to!(over_v => over_v->Table_0));
            assert(decreases_to!(oe0 => oe0@));
            assert(decreases_to!(oe0@ => oe0@[j as int]));
            assert(decreases_to!(oe0@[j as int] => oe0@[j as int].1));
            assert(decreases_to!(over_v => v));
            assert(decreases_to!(over => v));
            assert(oe@ =~= oe0@.skip(j + 1));
        }
        let ghost acc = entries_of(be@);
        proof {
            lemma_entries_of(be@);
            assert(eo[j as int] == (k@, tree_of(v)));
        }
        match find_entry(&be, k.as_str()) {
            Some(i) => {
                let ghost old_be = be@;
                let (kk, mut cur) = be.remove(i);
                let ghost old_cur = cur;
                merge_values(&mut cur, v);
                be.insert(i, (kk, cur));
                proof {
                    assert(be@ =~= old_be.update(i as int, (kk, cur)));
                    lemma_entries_update(old_be, i as int, (kk, cur));
                    assert(acc[i as int] == (kk@, tree_of(old_cur)));
                    assert(entries_of(be@) == acc.update(i as int, (acc[i as int].0, merged(acc[i as int].1, eo[j as int].1))));
                }
            },
            None => {
                let ghost old_be = be@;
                be.push((k, v));
                proof {
                    assert(be@.drop_last() =~= old_be);
                    assert(entries_of(be@) == acc.push(eo[j as int]));
                }
            },
        }
        j = j + 1;
    }
    *base = ConfigValue::Table(be);
}

/// Where the three configuration layers live; a layer without a place
/// (the user layer when there is no home directory) is skipped.
#[derive(Debug, Clone)]
pub struct LayeredConfigPaths {
    pub user: Option<String>,
    pub project: Option<String>,
    pub local: Option<String>,
}

/// `rel` (a relative path) joined onto the directory `base`, with a `/`
/// between them unless `base` is empty or already ends with one.
pub open spec fn joined(base: Seq<char>, rel: Seq<char>) -> Seq<char> {
    if base.len() == 0 || base.last() == '/' {
        base + rel
    } else {
        base + "/"@ + rel
    }
}

/// `rel` joined onto `base` (see `joined`).
pub fn join_path(base: &str, rel: &str) -> (r: String)
    ensures
        r@ == joined(base@, rel@),
{
    let b = chars_of(base);
    if b.len() == 0 || b[b.len() - 1] == '/' {
        cat(base, rel)
    } else {
        let t = cat(base, "/");
        cat(t.as_str(), rel)
    }
}

/// The layer files: `<home>/.zeroclaw/config.toml` for the user (when
/// there is a home directory), `<workspace>/.zeroclaw/config.toml` for the
/// project and `<workspace>/.zeroclaw/config.local.toml` for local
/// overrides.
pub fn default_layered_paths(workspace_dir: &str, home: Option<String>) -> (p: LayeredConfigPaths)
    ensures
        p.user is Some <==> home is Some,
        p.user matches Some(u) ==> u@ == joined(home->0@, ".zeroclaw/config.toml"@),
        p.project matches Some(x) && x@ == joined(workspace_dir@, ".zeroclaw/config.toml"@),
        p.local matches Some(x) && x@ == joined(workspace_dir@, ".zeroclaw/config.local.toml"@),
{
    let user = match home {
        Some(h) => Some(join_path(h.as_str(), ".zeroclaw/config.toml")),
        None => None,
    };
    let project = Some(join_path(workspace_dir, ".zeroclaw/config.toml"));
    let local = Some(join_path(workspace_dir, ".zeroclaw/config.local.toml"));
    LayeredConfigPaths { user, project, local }
}

/// One configuration layer: its file and, when the file was there, could
/// be read and parsed, its value.
#[derive(Debug)]
pub struct LayerSource {
    pub path: String,
    pub value: Option<ConfigValue>,
}

/// The merged value and the paths after applying layers.
#[derive(Debug)]
pub struct LayeredOutcome {
    /// The base with every loaded layer merged onto it, in order.
    pub value: ConfigValue,
    /// The path of the last layer that was applied, or the original path
    /// when none was.
    pub last_path: String,
    /// The configuration path to keep: `last_path`, or the original path
    /// when `last_path` is empty.
    pub config_path: String,
    /// The workspace directory, kept as it was before layering.
    pub workspace_dir: String,
}

/// A layer as a path and, when it was loaded, the tree of its value.
pub open spec fn source_view(l: LayerSource) -> (Seq<char>, Option<ValueTree>) {
    (
        l.path@,
        match l.value {
            Some(v) => Some(tree_of(v)),
            None => None,
        },
    )
}

/// The layers `ls` as paths and trees.
pub open spec fn source_views(ls: Seq<LayerSource>) -> Seq<(Seq<char>, Option<ValueTree>)> {
    ls.map_values(|l: LayerSource| source_view(l))
}

/// The merged tree and last applied path after the layers `ls` (each a
/// path and, when loaded, a tree), in order.
pub open spec fn applied(
    base: ValueTree,
    path: Seq<char>,
    ls: Seq<(Seq<char>, Option<ValueTree>)>,
) -> (ValueTree, Seq<char>)
    decreases ls.len(),
{
    if ls.len() == 0 {
        (base, path)
    } else {
        let (b, p) = applied(base, path, ls.drop_last());
        match ls.last().1 {
            Some(t) => (merged(b, t), ls.last().0),
            None => (b, p),
        }
    }
}

/// Applies the configuration layers onto `base`: each loaded layer, in
/// order, is merged onto the value so far (later layers override earlier
/// ones) and becomes the configuration path; a layer that was not loaded is
/// skipped. The workspace directory is kept.
pub fn apply_layered_files(
    base: ConfigValue,
    original_config_path: String,
    workspace_dir: String,
    layers: Vec<LayerSource>,
) -> (r: LayeredOutcome)
    ensures
        ({
            let (t, p) = applied(tree_of(base), original_config_path@, source_views(layers@));
            &&& tree_of(r.value) == t
            &&& r.last_path@ == p
            &&& r.config_path@ == (if p.len() == 0 {
                original_config_path@
            } else {
                p
            })
        }),
        r.workspace_dir@ == workspace_dir@,
{
    let mut value = base;
    let mut path = original_config_path.clone();
    let mut rest = layers;
    let ghost all = rest@;
    let n = rest.len();
    let mut i: usize = 0;
    assert(source_views(all.take(0)) =~= Seq::<(Seq<char>, Option<ValueTree>)>::empty());
    while i < n
        invariant
            n == all.len(),
            0 <= i <= n,
            rest@ == all.skip(i as int),
            (tree_of(value), path@) == applied(
                tree_of(base),
                original_config_path@,
                source_views(all.take(i as int)),
            ),
        decreases n - i,
    {
        let layer = rest.remove(0);
        proof {
            assert(layer == all[i as int]);
            assert(rest@ =~= all.skip(i + 1));
            assert(source_views(all.take(i + 1)).drop_last() =~= source_views(all.take(i as int)));
            assert(source_views(all.take(i + 1)).last() == source_view(all[i as int]));
        }
        let LayerSource { path: lp, value: lv } = layer;
        match lv {
            Some(v) => {
                merge_values(&mut value, v);
                path = lp;
            },
            None => {},
        }
        i = i + 1;
    }
    assert(all.take(n as int) =~= all);
    let config_path = if path.as_str().is_empty() {
        original_config_path
    } else {
        path.clone()
    };
    LayeredOutcome { value, last_path: path, config_path, workspace_dir }
}

#[verifier::external_type_specification]
#[verifier::external_body]
pub struct ExTomlValue(toml::Value);

/// The number of plain values (leaves) in a tree.
pub open spec fn leaf_count(t: ValueTree) -> nat
    decreases t, 0nat,
{
    match t {
        ValueTree::Table(es) => entries_leaf_count(es),
        ValueTree::Leaf(_) => 1,
    }
}

/// The number of plain values (leaves) in the entries of a table.
pub open spec fn entries_leaf_count(es: Seq<(Seq<char>, ValueTree)>) -> nat
    decreases es, es.len(),
{
    if es.len() == 0 {
        0
    } else {
        entries_leaf_count(es.drop_last()) + leaf_count(es.last().1)
    }
}

/// What `toml::from_str::<toml::Value>` makes of the text of a layer, as a
/// tree whose plain values are numbered in order from `first`; `None` when
/// the text is not valid TOML.
pub uninterp spec fn toml_layer(text: Seq<char>, first: nat) -> Option<ValueTree>;

/// The value of a TOML document as the merge sees it: a table becomes a
/// table of the same keys and values in the map's order, and any other
/// value is appended to `leaves` and known by its index there.
#[verifier::external_body]
fn toml_to_model(value: toml::Value, leaves: &mut Vec<toml::Value>) -> ConfigValue {
    match value {
        toml::Value::Table(t) => ConfigValue::Table(
            t.into_iter().map(|(k, v)| (k, toml_to_model(v, leaves))).collect(),
        ),
        other => {
            leaves.push(other);
            ConfigValue::Leaf((leaves.len() - 1) as u64)
        },
    }
}

/// Parses the text of a configuration layer with
/// `toml::from_str::<toml::Value>`. A text that is not valid TOML gives
/// `None` and leaves `leaves` as it was; otherwise the value is converted
/// (see `toml_to_model`): its plain values are appended to `leaves`, one for
/// each leaf of the tree, and the tree is named `toml_layer(text, n)`, `n`
/// the number of leaves before the call.
#[verifier::external_body]
pub fn parse_layer(text: &str, leaves: &mut Vec<toml::Value>) -> (r: Option<ConfigValue>)
    ensures
        r is None <==> toml_layer(text@, old(leaves)@.len()) is None,
        r matches Some(v) ==> Some(tree_of(v)) == toml_layer(text@, old(leaves)@.len()),
        r is None ==> final(leaves)@ == old(leaves)@,
        r matches Some(v) ==> final(leaves)@.len() == old(leaves)@.len() + leaf_count(tree_of(v)),
        final(leaves)@.subrange(0, old(leaves)@.len() as int) == old(leaves)@,
{
    match toml::from_str::<toml::Value>(text) {
        Ok(v) => Some(toml_to_model(v, leaves)),
        Err(_) => None,
    }
}

/// The tree of a layer's text that starts its leaves at `first`; `None`
/// when the layer has no text or the text is not valid TOML.
pub open spec fn parsed_text(t: Option<String>, first: nat) -> Option<ValueTree> {
    match t {
        Some(x) => toml_layer(x@, first),
        None => None,
    }
}

/// The number of leaves after parsing the texts of the layers `ls` in
/// order, starting from `first`.
pub open spec fn leaves_after(ls: Seq<(String, Option<String>)>, first: nat) -> nat
    decreases ls.len(),
{
    if ls.len() == 0 {
        first
    } else {
        let n = leaves_after(ls.drop_last(), first);
        match parsed_text(ls.last().1, n) {
            Some(v) => n + leaf_count(v),
            None => n,
        }
    }
}

/// The layers `ls` (each a path and, when the file could be read, its
/// text) as paths and parsed trees, their leaves numbered in order from
/// `first`.
pub open spec fn text_sources(ls: Seq<(String, Option<String>)>, first: nat) -> Seq<
    (Seq<char>, Option<ValueTree>),
>
    decreases ls.len(),
{
    if ls.len() == 0 {
        seq![]
    } else {
        text_sources(ls.drop_last(), first).push(
            (ls.last().0@, parsed_text(ls.last().1, leaves_after(ls.drop_last(), first))),
        )
    }
}

/// Parses the text of each layer (a path and, when the file could be read,
/// its text) as TOML and applies the layers onto `base` (see
/// `apply_layered_files`): a layer without text or with text that is not
/// valid TOML is skipped. The plain values of the layers are appended to
/// `leaves`.
pub fn apply_layer_texts(
    base: ConfigValue,
    original_config_path: String,
    workspace_dir: String,
    layers: Vec<(String, Option<String>)>,
    leaves: &mut Vec<toml::Value>,
) -> (r: LayeredOutcome)
    ensures
        ({
            let (t, p) = applied(
                tree_of(base),
                original_config_path@,
                text_sources(layers@, old(leaves)@.len()),
            );
            &&& tree_of(r.value) == t
            &&& r.last_path@ == p
            &&& r.config_path@ == (if p.len() == 0 {
                original_config_path@
            } else {
                p
            })
        }),
        r.workspace_dir@ == workspace_dir@,
        final(leaves)@.len() == leaves_after(layers@, old(leaves)@.len()),
        final(leaves)@.subrange(0, old(leaves)@.len() as int) == old(leaves)@,
{
    let ghost n0 = leaves@.len();
    let ghost l0 = leaves@;
    let mut sources: Vec<LayerSource> = Vec::new();
    let mut rest = layers;
    let ghost all = rest@;
    let n = rest.len();
    let mut i: usize = 0;
    assert(all.take(0) =~= Seq::<(String, Option<String>)>::empty());
    assert(source_views(sources@) =~= Seq::<(Seq<char>, Option<ValueTree>)>::empty());
    assert(leaves@.subrange(0, n0 as int) =~= l0);
    while i < n
        invariant
            n == all.len(),
            0 <= i <= n,
            rest@ == all.skip(i as int),
            source_views(sources@) == text_sources(all.take(i as int), n0),
            leaves@.len() == leaves_after(all.take(i as int), n0),
            leaves@.len() >= n0,
            leaves@.subrange(0, n0 as int) == l0,
            l0.len() == n0,
        decreases n - i,
    {
        let layer = rest.remove(0);
        proof {
            assert(layer == all[i as int]);
            assert(rest@ =~= all.skip(i + 1));
            assert(all.take(i + 1).drop_last() =~= all.take(i as int));
            assert(all.take(i + 1).last() == all[i as int]);
        }
        let ghost before = leaves@;
        let (path, text) = layer;
        let value = match text {
            Some(t) => parse_layer(t.as_str(), leaves),
            None => None,
        };
        proof {
            assert(leaves@.subrange(0, n0 as int) =~= before.subrange(0, n0 as int)) by {
                assert(leaves@.subrange(0, before.len() as int) == before);
                assert forall|k: int| 0 <= k < n0 implies leaves@[k] == before[k] by {
                    assert(leaves@.subrange(0, before.len() as int)[k] == leaves@[k]);
                }
            }
        }
        let ghost old_sources = source_views(sources@);
        sources.push(LayerSource { path, value });
        proof {
            assert(source_views(sources@) =~= old_sources.push(source_view(sources@.last())));
        }
        i = i + 1;
    }
    assert(all.take(n as int) =~= all);
    apply_layered_files(base, original_config_path, workspace_dir, sources)
}

/// The value under key `k` in the entries `s` (the first entry with that
/// key).
pub open spec fn lookup(s: Seq<(Seq<char>, ValueTree)>, k: Seq<char>) -> Option<ValueTree> {
    match find_key(s, k) {
        Some(i) => Some(s[i].1),
        None => None,
    }
}

/// No key occurs twice in `s`.
pub open spec fn tree_keys_unique(s: Seq<(Seq<char>, ValueTree)>) -> bool {
    forall|i: int, j: int|
        #![trigger s[i], s[j]]
        0 <= i < s.len() && 0 <= j < s.len() && i != j ==> s[i].0 != s[j].0
}

/// What merging gives under one key: the base's value when the overlay
/// has none, the overlay's when the base has none, and the two merged when
/// both have one.
pub open spec fn merged_at(b: Option<ValueTree>, o: Option<ValueTree>) -> Option<ValueTree> {
    match (b, o) {
        (_, None) => b,
        (None, Some(y)) => Some(y),
        (Some(x), Some(y)) => Some(merged(x, y)),
    }
}

proof fn lemma_find_key_spec(s: Seq<(Seq<char>, ValueTree)>, k: Seq<char>)
    ensures
        find_key(s, k) matches Some(i) ==> 0 <= i < s.len() && s[i].0 == k && forall|j: int|
            0 <= j < i ==> (#[trigger] s[j]).0 != k,
        find_key(s, k) is None ==> forall|j: int| 0 <= j < s.len() ==> (#[trigger] s[j]).0 != k,
    decreases s.len(),
{
    if s.len() > 0 && s[0].0 != k {
        let u = s.drop_first();
        lemma_find_key_spec(u, k);
        match find_key(u, k) {
            Some(i) => {
                assert(find_key(s, k) == Some(i + 1));
                assert(s[i + 1] == u[i]);
                assert forall|j: int| 0 <= j < i + 1 implies (#[trigger] s[j]).0 != k by {
                    if j > 0 {
                        assert(s[j] == u[j - 1]);
                    }
                }
            },
            None => {
                assert forall|j: int| 0 <= j < s.len() implies (#[trigger] s[j]).0 != k by {
                    if j > 0 {
                        assert(s[j] == u[j - 1]);
                    }
                }
            },
        }
    }
}

proof fn lemma_find_key_unique(s: Seq<(Seq<char>, ValueTree)>, k: Seq<char>, i: int)
    requires
        tree_keys_unique(s),
        0 <= i < s.len(),
        s[i].0 == k,
    ensures
        find_key(s, k) == Some(i),
{
    assert forall|j: int| 0 <= j < i implies (#[trigger] s[j]).0 != k by {}
    lemma_find_key_at(s, k, i);
}

proof fn lemma_lookup_unique(s: Seq<(Seq<char>, ValueTree)>, k: Seq<char>)
    requires
        tree_keys_unique(s),
    ensures
        lookup(s, k) is Some <==> exists|i: int| 0 <= i < s.len() && (#[trigger] s[i]).0 == k,
        forall|i: int| 0 <= i < s.len() && (#[trigger] s[i]).0 == k ==> lookup(s, k) == Some(s[i].1),
{
    lemma_find_key_spec(s, k);
    assert forall|i: int| 0 <= i < s.len() && (#[trigger] s[i]).0 == k implies lookup(s, k) == Some(
        s[i].1,
    ) by {
        lemma_find_key_unique(s, k, i);
    }
}

proof fn lemma_merge_into(be: Seq<(Seq<char>, ValueTree)>, oe: Seq<(Seq<char>, ValueTree)>, n: nat)
    requires
        tree_keys_unique(be),
        tree_keys_unique(oe),
        n <= oe.len(),
    ensures
        tree_keys_unique(merge_into(be, oe, n)),
        forall|k: Seq<char>|
            #[trigger] lookup(merge_into(be, oe, n), k) == merged_at(
                lookup(be, k),
                lookup(oe.take(n as int), k),
            ),
    decreases n,
{
    if n == 0 {
        assert forall|k: Seq<char>|
            #[trigger] lookup(merge_into(be, oe, n), k) == merged_at(
                lookup(be, k),
                lookup(oe.take(n as int), k),
            ) by {
            assert(oe.take(0).len() == 0);
        }
    } else {
        lemma_merge_into(be, oe, (n - 1) as nat);
        let acc = merge_into(be, oe, (n - 1) as nat);
        let e = oe[n - 1];
        let pre = oe.take(n - 1);
        let cur = oe.take(n as int);
        assert(tree_keys_unique(pre));
        assert(tree_keys_unique(cur));
        assert(cur[n - 1] == e);
        lemma_lookup_unique(cur, e.0);
        assert(lookup(cur, e.0) == Some(e.1));
        assert forall|j: int| 0 <= j < pre.len() implies (#[trigger] pre[j]).0 != e.0 by {
            assert(pre[j] == oe[j]);
        }
        lemma_lookup_unique(pre, e.0);
        assert(lookup(pre, e.0) is None);
        assert forall|k: Seq<char>| k != e.0 implies #[trigger] lookup(cur, k) == lookup(pre, k) by {
            lemma_lookup_unique(cur, k);
            lemma_lookup_unique(pre, k);
            if lookup(pre, k) is Some {
                let j = choose|j: int| 0 <= j < pre.len() && (#[trigger] pre[j]).0 == k;
                assert(cur[j] == pre[j]);
            }
            if lookup(cur, k) is Some {
                let j = choose|j: int| 0 <= j < cur.len() && (#[trigger] cur[j]).0 == k;
                assert(j != n - 1);
                assert(pre[j] == cur[j]);
            }
        }
        lemma_find_key_spec(acc, e.0);
        let r = merge_into(be, oe, n);
        match find_key(acc, e.0) {
            Some(i) => {
                assert(r == acc.update(i, (acc[i].0, merged(acc[i].1, e.1))));
                assert(tree_keys_unique(r)) by {
                    assert forall|a: int, b: int|
                        0 <= a < r.len() && 0 <= b < r.len() && a != b implies #[trigger] r[a].0
                        != #[trigger] r[b].0 by {
                        assert(r[a].0 == acc[a].0 && r[b].0 == acc[b].0);
                    }
                }
                assert forall|k: Seq<char>|
                    #[trigger] lookup(r, k) == merged_at(lookup(be, k), lookup(cur, k)) by {
                    lemma_lookup_unique(r, k);
                    lemma_lookup_unique(acc, k);
                    assert(lookup(acc, k) == merged_at(lookup(be, k), lookup(pre, k)));
                    if k == e.0 {
                        assert(r[i].0 == k);
                        assert(lookup(acc, k) == Some(acc[i].1));
                    } else {
                        if lookup(acc, k) is Some {
                            let j = choose|j: int| 0 <= j < acc.len() && (#[trigger] acc[j]).0 == k;
                            assert(r[j] == acc[j]);
                        }
                        if lookup(r, k) is Some {
                            let j = choose|j: int| 0 <= j < r.len() && (#[trigger] r[j]).0 == k;
                            assert(r[j] == acc[j]);
                        }
                    }
                }
            },
            None => {
                assert(r == acc.push(e));
                assert(tree_keys_unique(r)) by {
                    assert forall|a: int, b: int|
                        0 <= a < r.len() && 0 <= b < r.len() && a != b implies #[trigger] r[a].0
                        != #[trigger] r[b].0 by {
                        if a < acc.len() && b < acc.len() {
                            assert(r[a] == acc[a] && r[b] == acc[b]);
                        } else if a < acc.len() {
                            assert(r[a] == acc[a]);
                        } else {
                            assert(r[b] == acc[b]);
                        }
                    }
                }
                assert forall|k: Seq<char>|
                    #[trigger] lookup(r, k) == merged_at(lookup(be, k), lookup(cur, k)) by {
                    lemma_lookup_unique(r, k);
                    lemma_lookup_unique(acc, k);
                    assert(lookup(acc, k) == merged_at(lookup(be, k), lookup(pre, k)));
                    if k == e.0 {
                        assert(r[acc.len() as int].0 == k);
                        assert(lookup(acc, k) is None);
                    } else {
                        if lookup(acc, k) is Some {
                            let j = choose|j: int| 0 <= j < acc.len() && (#[trigger] acc[j]).0 == k;
                            assert(r[j] == acc[j]);
                        }
                        if lookup(r, k) is Some {
                            let j = choose|j: int| 0 <= j < r.len() && (#[trigger] r[j]).0 == k;
                            assert(j < acc.len());
                            assert(r[j] == acc[j]);
                        }
                    }
                }
            },
        }
    }
}

/// Merging two tables (each with no repeated key) gives a table with no
/// repeated key in which every key of either holds: the base's value when
/// the overlay does not set it (unrelated base settings are kept), the
/// overlay's value when the base does not have it, and the two merged when
/// both do.
pub proof fn law_merge_tables(be: Seq<(Seq<char>, ValueTree)>, oe: Seq<(Seq<char>, ValueTree)>)
    requires
        tree_keys_unique(be),
        tree_keys_unique(oe),
    ensures
        merged(ValueTree::Table(be), ValueTree::Table(oe)) matches ValueTree::Table(r) && {
            &&& tree_keys_unique(r)
            &&& forall|k: Seq<char>|
                #[trigger] lookup(r, k) == merged_at(lookup(be, k), lookup(oe, k))
        },
{
    lemma_merge_into(be, oe, oe.len());
    assert(oe.take(oe.len() as int) =~= oe);
}

/// A value that is not a table replaces whatever it is merged onto.
pub proof fn law_merge_non_table_replaces(base: ValueTree, h: u64)
    ensures
        merged(base, ValueTree::Leaf(h)) == ValueTree::Leaf(h),
{
}

/// Merging an empty table onto a table changes nothing.
pub proof fn law_merge_empty_identity(be: Seq<(Seq<char>, ValueTree)>)
    ensures
        merged(ValueTree::Table(be), ValueTree::Table(seq![])) == ValueTree::Table(be),
{
}

/// Of two layers applied in turn, the later one wins: a key that the later
/// layer sets to a plain value holds that value, whatever the base and the
/// earlier layer held; a key that neither layer sets keeps the base's value.
pub proof fn law_later_layer_overrides(
    base: Seq<(Seq<char>, ValueTree)>,
    first: Seq<(Seq<char>, ValueTree)>,
    second: Seq<(Seq<char>, ValueTree)>,
    k: Seq<char>,
)
    requires
        tree_keys_unique(base),
        tree_keys_unique(first),
        tree_keys_unique(second),
    ensures
        merged(
            merged(ValueTree::Table(base), ValueTree::Table(first)),
            ValueTree::Table(second),
        ) matches ValueTree::Table(r) && {
            &&& (lookup(second, k) matches Some(ValueTree::Leaf(h)) ==> lookup(r, k) == Some(
                ValueTree::Leaf(h),
            ))
            &&& (lookup(first, k) is None && lookup(second, k) is None ==> lookup(r, k) == lookup(
                base,
                k,
            ))
        },
{
    law_merge_tables(base, first);
    let m1 = merged(ValueTree::Table(base), ValueTree::Table(first));
    let r1 = m1->Table_0;
    law_merge_tables(r1, second);
    let r = merged(m1, ValueTree::Table(second))->Table_0;
    assert(lookup(r, k) == merged_at(lookup(r1, k), lookup(second, k)));
    assert(lookup(r1, k) == merged_at(lookup(base, k), lookup(first, k)));
}

/// Layers are applied one after another: a loaded layer is merged onto what
/// the layers before it gave and its path becomes the last path; a layer
/// that was not loaded changes nothing.
pub proof fn law_layers_apply_in_turn(
    base: ValueTree,
    path: Seq<char>,
    ls: Seq<(Seq<char>, Option<ValueTree>)>,
    q: Seq<char>,
    t: Option<ValueTree>,
)
    ensures
        t matches Some(tt) ==> applied(base, path, ls.push((q, t))) == (
            merged(applied(base, path, ls).0, tt),
            q,
        ),
        t is None ==> applied(base, path, ls.push((q, t))) == applied(base, path, ls),
{
    assert(ls.push((q, t)).drop_last() =~= ls);
}

/// Of two loaded table layers, a key that the earlier one sets to a plain
/// value and the later one does not set keeps the earlier layer's value; a
/// key that neither sets keeps the base's; a key that the later one sets to
/// a plain value has that value. The last path is the later layer's.
pub proof fn law_earlier_layer_survives_later(
    be: Seq<(Seq<char>, ValueTree)>,
    path: Seq<char>,
    p1: Seq<char>,
    e1: Seq<(Seq<char>, ValueTree)>,
    p2: Seq<char>,
    e2: Seq<(Seq<char>, ValueTree)>,
    k: Seq<char>,
)
    requires
        tree_keys_unique(be),
        tree_keys_unique(e1),
        tree_keys_unique(e2),
    ensures
        ({
            let (r, last) = applied(
                ValueTree::Table(be),
                path,
                seq![(p1, Some(ValueTree::Table(e1))), (p2, Some(ValueTree::Table(e2)))],
            );
            &&& last == p2
            &&& r matches ValueTree::Table(re) && {
                &&& (lookup(e1, k) matches Some(ValueTree::Leaf(h)) ==> (lookup(e2, k) is None
                    ==> lookup(re, k) == Some(ValueTree::Leaf(h))))
                &&& (lookup(e1, k) is None && lookup(e2, k) is None ==> lookup(re, k) == lookup(
                    be,
                    k,
                ))
                &&& (lookup(e2, k) matches Some(ValueTree::Leaf(h)) ==> lookup(re, k) == Some(
                    ValueTree::Leaf(h),
                ))
            }
        }),
{
    let ls = seq![(p1, Some(ValueTree::Table(e1))), (p2, Some(ValueTree::Table(e2)))];
    let l1 = seq![(p1, Some(ValueTree::Table(e1)))];
    assert(ls.drop_last() =~= l1);
    assert(l1.drop_last() =~= Seq::<(Seq<char>, Option<ValueTree>)>::empty());
    law_merge_tables(be, e1);
    let m1 = merged(ValueTree::Table(be), ValueTree::Table(e1));
    let r1 = m1->Table_0;
    law_merge_tables(r1, e2);
    let r = merged(m1, ValueTree::Table(e2))->Table_0;
    assert(lookup(r, k) == merged_at(lookup(r1, k), lookup(e2, k)));
    assert(lookup(r1, k) == merged_at(lookup(be, k), lookup(e1, k)));
    assert(applied(ValueTree::Table(be), path, Seq::<(Seq<char>, Option<ValueTree>)>::empty()) == (
        ValueTree::Table(be),
        path,
    ));
    assert(applied(ValueTree::Table(be), path, l1) == (m1, p1));
    assert(applied(ValueTree::Table(be), path, ls) == (merged(m1, ValueTree::Table(e2)), p2));
}

} // verus!
