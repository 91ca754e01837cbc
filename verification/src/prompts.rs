//! System prompts: the compiled-in defaults overridden, by name, from the
//! global prompts directory, the project's `data/prompts`, and
//! `.zerostack/prompts`, in that order of increasing precedence.

use vstd::prelude::*;

use crate::fs::{join_path, spec_join_path};
use crate::layers::{
    default_writes, entries_with_ext, first_wins_pairs, last_wins_pairs, merge_layers,
    spec_changed_files, spec_default_writes, spec_merge_layers, stems_with_ext, text_map,
    text_pairs,
};
use crate::strmap::keys_unique;

verus! {

/// The global prompts directory under the data directory.
pub fn global_dir(data_dir: &str) -> (r: String)
    ensures
        r@ == spec_join_path(data_dir@, "prompts"@),
{
    join_path(data_dir, "prompts")
}

/// The project-local prompts directory, relative to the working directory.
pub fn zerostack_dir() -> (r: &'static str)
    ensures
        r@ == ".zerostack/prompts"@,
{
    ".zerostack/prompts"
}

/// The project's own prompts directory, relative to the working directory.
pub fn project_dir() -> (r: &'static str)
    ensures
        r@ == "data/prompts"@,
{
    "data/prompts"
}

/// The prompts made of the given files (each a file name and its content):
/// the `.md` files of the compiled-in set, then those of the global
/// directory, of `data/prompts` and of `.zerostack/prompts`, each later one
/// replacing a prompt of the same name.
pub open spec fn spec_load(
    embedded: Seq<(String, String)>,
    global: Seq<(String, String)>,
    project: Seq<(String, String)>,
    local: Seq<(String, String)>,
) -> Map<Seq<char>, Seq<char>> {
    spec_merge_layers(
        entries_with_ext(embedded, "md"@),
        seq![
            entries_with_ext(global, "md"@),
            entries_with_ext(project, "md"@),
            entries_with_ext(local, "md"@),
        ],
    )
}

/// The pairs found are the entries with the extension.
proof fn lemma_stems_pairs(r: Seq<(String, String)>, files: Seq<(String, String)>, ext: Seq<char>)
    requires
        r.len() == entries_with_ext(files, ext).len(),
        forall|i: int|
            0 <= i < r.len() ==> (#[trigger] r[i]).0@ == entries_with_ext(files, ext)[i].0
                && r[i].1@ == entries_with_ext(files, ext)[i].1,
    ensures
        text_pairs(r) == entries_with_ext(files, ext),
{
    assert(text_pairs(r) =~= entries_with_ext(files, ext));
}

/// All prompts by name, from the compiled-in files and the files read from
/// the three prompt directories.
pub fn load(
    embedded: &[(String, String)],
    global: &[(String, String)],
    project: &[(String, String)],
    local: &[(String, String)],
) -> (r: Vec<(String, String)>)
    ensures
        keys_unique(r@),
        text_map(r@) == spec_load(embedded@, global@, project@, local@),
{
    let d = stems_with_ext(embedded, "md");
    let g = stems_with_ext(global, "md");
    let p = stems_with_ext(project, "md");
    let l = stems_with_ext(local, "md");
    proof {
        lemma_stems_pairs(d@, embedded@, "md"@);
        lemma_stems_pairs(g@, global@, "md"@);
        lemma_stems_pairs(p@, project@, "md"@);
        lemma_stems_pairs(l@, local@, "md"@);
    }
    let layers = vec![g, p, l];
    let r = merge_layers(d.as_slice(), layers.as_slice());
    assert(layers@.map_values(|v: Vec<(String, String)>| text_pairs(v@)) =~= seq![
        entries_with_ext(global@, "md"@),
        entries_with_ext(project@, "md"@),
        entries_with_ext(local@, "md"@),
    ]);
    r
}

/// Precedence of prompt sources: a name the `.zerostack` layer defines has
/// its text there; failing that, `data/prompts`; failing that, the global
/// directory; failing all three, the first compiled-in file of that name.
pub proof fn lemma_load_precedence(
    d: Seq<(Seq<char>, Seq<char>)>,
    g: Seq<(Seq<char>, Seq<char>)>,
    p: Seq<(Seq<char>, Seq<char>)>,
    l: Seq<(Seq<char>, Seq<char>)>,
    name: Seq<char>,
)
    ensures
        ({
            let m = spec_merge_layers(d, seq![g, p, l]);
            &&& last_wins_pairs(l).contains_key(name) ==> m.contains_key(name) && m[name]
                == last_wins_pairs(l)[name]
            &&& !last_wins_pairs(l).contains_key(name) && last_wins_pairs(p).contains_key(name)
                ==> m.contains_key(name) && m[name] == last_wins_pairs(p)[name]
            &&& !last_wins_pairs(l).contains_key(name) && !last_wins_pairs(p).contains_key(name)
                && last_wins_pairs(g).contains_key(name) ==> m.contains_key(name) && m[name]
                == last_wins_pairs(g)[name]
            &&& !last_wins_pairs(l).contains_key(name) && !last_wins_pairs(p).contains_key(name)
                && !last_wins_pairs(g).contains_key(name) ==> (m.contains_key(name)
                <==> first_wins_pairs(d).contains_key(name)) && (m.contains_key(name) ==> m[name]
                == first_wins_pairs(d)[name])
        }),
{
    let s = seq![g, p, l];
    let e = Seq::<Seq<(Seq<char>, Seq<char>)>>::empty();
    assert(s.drop_last() =~= seq![g, p]);
    assert(seq![g, p].drop_last() =~= seq![g]);
    assert(seq![g].drop_last() =~= e);
    let m0 = first_wins_pairs(d);
    let m1 = m0.union_prefer_right(last_wins_pairs(g));
    let m2 = m1.union_prefer_right(last_wins_pairs(p));
    let m3 = m2.union_prefer_right(last_wins_pairs(l));
    assert(spec_merge_layers(d, e) == m0);
    assert(spec_merge_layers(d, seq![g]) == m1);
    assert(spec_merge_layers(d, seq![g, p]) == m2);
    assert(spec_merge_layers(d, s) == m3);
}

/// Where the text of a prompt in use came from.
#[derive(Debug, Clone, Copy, PartialEq, Eq, Structural)]
pub enum PromptSource {
    /// The compiled-in text (possibly a byte-identical copy on disk).
    BuiltIn,
    /// Text the user wrote or edited.
    UserFile,
}

/// The source of a prompt: the highest-precedence copy on disk
/// (`.zerostack/prompts`, then `data/prompts`, then the global directory)
/// decides; no copy, or one byte-identical to the compiled-in text, means
/// built in; anything else is the user's.
pub open spec fn spec_source_of(
    local: Option<Seq<char>>,
    project: Option<Seq<char>>,
    global: Option<Seq<char>>,
    embedded: Option<Seq<char>>,
) -> PromptSource {
    let effective = if local is Some {
        local
    } else if project is Some {
        project
    } else {
        global
    };
    match effective {
        None => PromptSource::BuiltIn,
        Some(c) => if embedded == Some(c) {
            PromptSource::BuiltIn
        } else {
            PromptSource::UserFile
        },
    }
}

/// The text of an optional string.
pub open spec fn opt_view(o: Option<&str>) -> Option<Seq<char>> {
    match o {
        Some(s) => Some(s@),
        None => None,
    }
}

/// Whether a prompt's loaded text is the compiled-in default or a user
/// customization, given the copies of `<name>.md` in the three directories
/// and the compiled-in text.
pub fn source_of(
    local: Option<&str>,
    project: Option<&str>,
    global: Option<&str>,
    embedded: Option<&str>,
) -> (r: PromptSource)
    ensures
        r == spec_source_of(opt_view(local), opt_view(project), opt_view(global), opt_view(embedded)),
{
    let effective = if local.is_some() {
        local
    } else if project.is_some() {
        project
    } else {
        global
    };
    match effective {
        None => PromptSource::BuiltIn,
        Some(c) => match embedded {
            Some(e) => if crate::text::str_eq(e, c) {
                PromptSource::BuiltIn
            } else {
                PromptSource::UserFile
            },
            None => PromptSource::UserFile,
        },
    }
}

/// The writes that seed the global directory with the compiled-in prompts:
/// all of them when the directory does not exist yet, none otherwise.
pub fn ensure_global(embedded: &[(String, String)], dir: &str, dir_exists: bool) -> (r: Vec<
    (String, String),
>)
    ensures
        dir_exists ==> r@.len() == 0,
        !dir_exists ==> r@.len() == embedded@.len() && forall|i: int|
            0 <= i < r@.len() ==> (#[trigger] r@[i]).0@ == spec_default_writes(embedded@, dir@)[i].0
                && r@[i].1@ == spec_default_writes(embedded@, dir@)[i].1,
{
    if dir_exists {
        Vec::new()
    } else {
        default_writes(embedded, dir)
    }
}

/// The writes that restore every compiled-in prompt in the global
/// directory.
pub fn regen(embedded: &[(String, String)], dir: &str) -> (r: Vec<(String, String)>)
    ensures
        r@.len() == embedded@.len(),
        forall|i: int|
            0 <= i < r@.len() ==> (#[trigger] r@[i]).0@ == spec_default_writes(embedded@, dir@)[i].0
                && r@[i].1@ == spec_default_writes(embedded@, dir@)[i].1,
{
    default_writes(embedded, dir)
}

/// Regenerating leaves nothing changed: once every file that [`regen`]
/// writes reads back with the text written, [`changed_files`] finds no
/// compiled-in prompt missing or modified.
pub proof fn lemma_regen_leaves_nothing_changed(
    embedded: Seq<(String, String)>,
    dir: Seq<char>,
    on_disk: Seq<Option<String>>,
)
    requires
        on_disk.len() == embedded.len(),
        forall|i: int|
            0 <= i < on_disk.len() ==> (#[trigger] on_disk[i] matches Some(c) && c@
                == spec_default_writes(embedded, dir)[i].1),
    ensures
        spec_changed_files(embedded, on_disk) == Seq::<Seq<char>>::empty(),
    decreases embedded.len(),
{
    if embedded.len() > 0 {
        let e2 = embedded.drop_last();
        let d2 = on_disk.drop_last();
        assert forall|i: int| 0 <= i < d2.len() implies (#[trigger] d2[i] matches Some(c) && c@
            == spec_default_writes(e2, dir)[i].1) by {
            assert(on_disk[i] matches Some(c) && c@ == spec_default_writes(embedded, dir)[i].1);
        }
        lemma_regen_leaves_nothing_changed(e2, dir, d2);
        let last = on_disk.len() - 1;
        assert(on_disk[last] matches Some(c) && c@ == spec_default_writes(embedded, dir)[last].1);
    }
}

/// Names of compiled-in prompt files that are missing or modified in a
/// directory, given what it holds under each name.
pub fn changed_files(embedded: &[(String, String)], on_disk: &[Option<String>]) -> (r: Vec<String>)
    requires
        embedded.len() == on_disk.len(),
    ensures
        r@.len() == spec_changed_files(embedded@, on_disk@).len(),
        forall|i: int|
            0 <= i < r@.len() ==> #[trigger] r@[i]@ == spec_changed_files(embedded@, on_disk@)[i],
{
    crate::layers::changed_files(embedded, on_disk)
}

/// The text a layer holds under `name`, if any.
pub open spec fn layer_text(layer: Seq<(Seq<char>, Seq<char>)>, name: Seq<char>) -> Option<Seq<char>> {
    if last_wins_pairs(layer).contains_key(name) {
        Some(last_wins_pairs(layer)[name])
    } else {
        None
    }
}

/// The source of a prompt agrees with what is loaded: for a prompt that is
/// served, the source is built in exactly when the text served is the
/// compiled-in text of that name. A copy on disk identical to the
/// compiled-in text counts as built in; an edited copy that a higher layer
/// shadows does not count.
pub proof fn lemma_source_matches_load(
    d: Seq<(Seq<char>, Seq<char>)>,
    g: Seq<(Seq<char>, Seq<char>)>,
    p: Seq<(Seq<char>, Seq<char>)>,
    l: Seq<(Seq<char>, Seq<char>)>,
    name: Seq<char>,
)
    requires
        spec_merge_layers(d, seq![g, p, l]).contains_key(name),
    ensures
        ({
            let m = spec_merge_layers(d, seq![g, p, l]);
            let e = if first_wins_pairs(d).contains_key(name) {
                Some(first_wins_pairs(d)[name])
            } else {
                None
            };
            spec_source_of(layer_text(l, name), layer_text(p, name), layer_text(g, name), e)
                == PromptSource::BuiltIn <==> e == Some(m[name])
        }),
{
    lemma_load_precedence(d, g, p, l, name);
}

} // verus!
