//! Color themes: the compiled-in defaults overridden, by name, from the
//! global themes directory and then the project's `data/themes`.

use vstd::prelude::*;

use crate::fs::{join_path, spec_join_path};
use crate::layers::{
    default_writes, entries_with_ext, first_wins_pairs, last_wins_pairs, merge_layers,
    spec_changed_files, spec_default_writes, spec_merge_layers, stems_with_ext, text_map, text_pairs,
};
use crate::strmap::keys_unique;

verus! {

/// The global themes directory under the data directory.
pub fn global_dir(data_dir: &str) -> (r: String)
    ensures
        r@ == spec_join_path(data_dir@, "themes"@),
{
    join_path(data_dir, "themes")
}

/// The project's own themes directory, relative to the working directory.
pub fn project_dir() -> (r: &'static str)
    ensures
        r@ == "data/themes"@,
{
    "data/themes"
}

/// The themes made of the given files: the `.json` files of the
/// compiled-in set, then those of the global directory and of
/// `data/themes`, each later one replacing a theme of the same name.
pub open spec fn spec_load(
    embedded: Seq<(String, String)>,
    global: Seq<(String, String)>,
    project: Seq<(String, String)>,
) -> Map<Seq<char>, Seq<char>> {
    spec_merge_layers(
        entries_with_ext(embedded, "json"@),
        seq![entries_with_ext(global, "json"@), entries_with_ext(project, "json"@)],
    )
}

/// All themes by name, from the compiled-in files and the files read from
/// the two theme directories.
pub fn load(
    embedded: &[(String, String)],
    global: &[(String, String)],
    project: &[(String, String)],
) -> (r: Vec<(String, String)>)
    ensures
        keys_unique(r@),
        text_map(r@) == spec_load(embedded@, global@, project@),
{
    let d = stems_with_ext(embedded, "json");
    let g = stems_with_ext(global, "json");
    let p = stems_with_ext(project, "json");
    assert(text_pairs(d@) =~= entries_with_ext(embedded@, "json"@));
    assert(text_pairs(g@) =~= entries_with_ext(global@, "json"@));
    assert(text_pairs(p@) =~= entries_with_ext(project@, "json"@));
    let layers = vec![g, p];
    let r = merge_layers(d.as_slice(), layers.as_slice());
    assert(layers@.map_values(|v: Vec<(String, String)>| text_pairs(v@)) =~= seq![
        entries_with_ext(global@, "json"@),
        entries_with_ext(project@, "json"@),
    ]);
    r
}

/// The writes that seed the global directory with the compiled-in themes:
/// all of them when the directory does not exist yet, none otherwise.
pub fn ensure_global(embedded: &[(String, String)], dir: &str, dir_exists: bool) -> (r: Vec<
    (String, String),
>)
    ensures
        dir_exists ==> r@.len() == 0,
        !dir_exists ==> r@.len() == embedded@.len() && forall|i: int|
            0 <= i < r@.len() ==> (#[trigger] r@[i]).0@ == spec_default_writes(embedded@, dir@)[i].0
                && r@[i].1@ == spec_default_writes(embedded@, dir@)[i].1,
{
    if dir_exists {
        Vec::new()
    } else {
        default_writes(embedded, dir)
    }
}

/// The writes that restore every compiled-in theme in the global directory.
pub fn regen(embedded: &[(String, String)], dir: &str) -> (r: Vec<(String, String)>)
    ensures
        r@.len() == embedded@.len(),
        forall|i: int|
            0 <= i < r@.len() ==> (#[trigger] r@[i]).0@ == spec_default_writes(embedded@, dir@)[i].0
                && r@[i].1@ == spec_default_writes(embedded@, dir@)[i].1,
{
    default_writes(embedded, dir)
}

/// Names of compiled-in theme files that are missing or modified in a
/// directory, given what it holds under each name.
pub fn changed_files(embedded: &[(String, String)], on_disk: &[Option<String>]) -> (r: Vec<String>)
    requires
        embedded.len() == on_disk.len(),
    ensures
        r@.len() == spec_changed_files(embedded@, on_disk@).len(),
        forall|i: int|
            0 <= i < r@.len() ==> #[trigger] r@[i]@ == spec_changed_files(embedded@, on_disk@)[i],
{
    crate::layers::changed_files(embedded, on_disk)
}

/// Precedence of theme sources: a name `data/themes` defines has its text
/// there; failing that, the global directory; failing both, the first
/// compiled-in file of that name.
pub proof fn lemma_theme_precedence(
    d: Seq<(Seq<char>, Seq<char>)>,
    g: Seq<(Seq<char>, Seq<char>)>,
    p: Seq<(Seq<char>, Seq<char>)>,
    name: Seq<char>,
)
    ensures
        ({
            let m = spec_merge_layers(d, seq![g, p]);
            &&& last_wins_pairs(p).contains_key(name) ==> m.contains_key(name) && m[name]
                == last_wins_pairs(p)[name]
            &&& !last_wins_pairs(p).contains_key(name) && last_wins_pairs(g).contains_key(name)
                ==> m.contains_key(name) && m[name] == last_wins_pairs(g)[name]
            &&& !last_wins_pairs(p).contains_key(name) && !last_wins_pairs(g).contains_key(name)
                ==> (m.contains_key(name) <==> first_wins_pairs(d).contains_key(name)) && (
            m.contains_key(name) ==> m[name] == first_wins_pairs(d)[name])
        }),
{
    let s = seq![g, p];
    let e = Seq::<Seq<(Seq<char>, Seq<char>)>>::empty();
    assert(s.drop_last() =~= seq![g]);
    assert(seq![g].drop_last() =~= e);
    let m0 = first_wins_pairs(d);
    let m1 = m0.union_prefer_right(last_wins_pairs(g));
    let m2 = m1.union_prefer_right(last_wins_pairs(p));
    assert(spec_merge_layers(d, e) == m0);
    assert(spec_merge_layers(d, seq![g]) == m1);
    assert(spec_merge_layers(d, s) == m2);
}

} // verus!
