//! Named text resources (prompts, themes) assembled from layers: the
//! compiled-in defaults, then directories that override them by name.

use vstd::prelude::*;

use crate::fs::{join_path, spec_join_path};
use crate::strmap::{keys_unique, map_get, map_insert, map_insert_if_absent, to_map};
use crate::text::{chars_of, slice_range, string_from_chars};

verus! {

/// The index of the last `.` in `name`, if any.
pub open spec fn last_dot(name: Seq<char>) -> Option<int>
    decreases name.len(),
{
    if name.len() == 0 {
        None
    } else if name.last() == '.' {
        Some(name.len() - 1)
    } else {
        last_dot(name.drop_last())
    }
}

/// The extension of a file name as `Path::extension` gives it: what
/// follows the last `.`, unless that `.` starts the name.
pub open spec fn file_extension(name: Seq<char>) -> Option<Seq<char>> {
    match last_dot(name) {
        Some(i) if i > 0 => Some(name.skip(i + 1)),
        _ => None,
    }
}

/// The file name without its extension, as `Path::file_stem` gives it.
pub open spec fn file_stem(name: Seq<char>) -> Seq<char> {
    match last_dot(name) {
        Some(i) if i > 0 => name.take(i),
        _ => name,
    }
}

/// The `(stem, content)` pairs of the files of `files` whose extension is
/// `ext`, in order.
pub open spec fn entries_with_ext(files: Seq<(String, String)>, ext: Seq<char>) -> Seq<
    (Seq<char>, Seq<char>),
>
    decreases files.len(),
{
    if files.len() == 0 {
        seq![]
    } else {
        let rest = entries_with_ext(files.drop_last(), ext);
        let f = files.last();
        if file_extension(f.0@) == Some(ext) {
            rest.push((file_stem(f.0@), f.1@))
        } else {
            rest
        }
    }
}

/// The position of the last `.` of `cs`.
fn last_dot_exec(cs: &[char]) -> (r: Option<usize>)
    ensures
        match r {
            Some(i) => last_dot(cs@) == Some(i as int) && i < cs.len(),
            None => last_dot(cs@) is None,
        },
{
    let mut i: usize = cs.len();
    assert(cs@.take(i as int) =~= cs@);
    while i > 0
        invariant
            i <= cs.len(),
            last_dot(cs@) == last_dot(cs@.take(i as int)),
        decreases i,
    {
        assert(cs@.take(i as int).drop_last() =~= cs@.take(i - 1));
        if cs[i - 1] == '.' {
            return Some(i - 1);
        }
        i = i - 1;
    }
    None
}

/// The extension of the file name `name`.
pub fn extension_of(name: &str) -> (r: Option<String>)
    ensures
        match r {
            Some(e) => file_extension(name@) == Some(e@),
            None => file_extension(name@) is None,
        },
{
    let cs = chars_of(name);
    match last_dot_exec(cs.as_slice()) {
        Some(d) if d > 0 => {
            let x = slice_range(cs.as_slice(), d + 1, cs.len());
            assert(x@ =~= cs@.skip(d + 1));
            Some(string_from_chars(x.as_slice()))
        },
        _ => None,
    }
}

/// The stem and content of each file of `files` with extension `ext`.
pub fn stems_with_ext(files: &[(String, String)], ext: &str) -> (r: Vec<(String, String)>)
    ensures
        r@.len() == entries_with_ext(files@, ext@).len(),
        forall|i: int|
            0 <= i < r@.len() ==> (#[trigger] r@[i]).0@ == entries_with_ext(files@, ext@)[i].0
                && r@[i].1@ == entries_with_ext(files@, ext@)[i].1,
{
    let e = chars_of(ext);
    let mut r: Vec<(String, String)> = Vec::new();
    let mut k: usize = 0;
    while k < files.len()
        invariant
            e@ == ext@,
            0 <= k <= files.len(),
            r@.len() == entries_with_ext(files@.take(k as int), ext@).len(),
            forall|i: int|
                0 <= i < r@.len() ==> (#[trigger] r@[i]).0@ == entries_with_ext(
                    files@.take(k as int),
                    ext@,
                )[i].0 && r@[i].1@ == entries_with_ext(files@.take(k as int), ext@)[i].1,
        decreases files.len() - k,
    {
        assert(files@.take(k + 1).drop_last() =~= files@.take(k as int));
        let name = chars_of(files[k].0.as_str());
        match last_dot_exec(name.as_slice()) {
            Some(d) if d > 0 => {
                let x = slice_range(name.as_slice(), d + 1, name.len());
                assert(x@ =~= name@.skip(d + 1));
                if crate::text::chars_equal(x.as_slice(), e.as_slice()) {
                    let stem = slice_range(name.as_slice(), 0, d);
                    assert(stem@ =~= name@.take(d as int));
                    r.push((string_from_chars(stem.as_slice()), files[k].1.clone()));
                }
            },
            _ => {},
        }
        k = k + 1;
    }
    assert(files@.take(files.len() as int) =~= files@);
    r
}

/// The map of `s`, a key's first value winning.
pub open spec fn first_wins_pairs(s: Seq<(Seq<char>, Seq<char>)>) -> Map<Seq<char>, Seq<char>>
    decreases s.len(),
{
    if s.len() == 0 {
        Map::empty()
    } else {
        let m = first_wins_pairs(s.drop_last());
        if m.contains_key(s.last().0) {
            m
        } else {
            m.insert(s.last().0, s.last().1)
        }
    }
}

/// The map of `s`, a key's last value winning.
pub open spec fn last_wins_pairs(s: Seq<(Seq<char>, Seq<char>)>) -> Map<Seq<char>, Seq<char>>
    decreases s.len(),
{
    if s.len() == 0 {
        Map::empty()
    } else {
        last_wins_pairs(s.drop_last()).insert(s.last().0, s.last().1)
    }
}

/// The texts of a set of layers: the defaults (first of a name wins),
/// overridden by each later layer in turn (last of a name wins).
pub open spec fn spec_merge_layers(
    defaults: Seq<(Seq<char>, Seq<char>)>,
    layers: Seq<Seq<(Seq<char>, Seq<char>)>>,
) -> Map<Seq<char>, Seq<char>>
    decreases layers.len(),
{
    if layers.len() == 0 {
        first_wins_pairs(defaults)
    } else {
        spec_merge_layers(defaults, layers.drop_last()).union_prefer_right(
            last_wins_pairs(layers.last()),
        )
    }
}

/// The pairs of `v` as texts.
pub open spec fn text_pairs(v: Seq<(String, String)>) -> Seq<(Seq<char>, Seq<char>)> {
    v.map_values(|p: (String, String)| (p.0@, p.1@))
}

/// The text map of `m`.
pub open spec fn text_map(m: Seq<(String, String)>) -> Map<Seq<char>, Seq<char>> {
    to_map(m).map_values(|v: String| v@)
}

/// Adding a pair adds its key with its text.
proof fn lemma_text_map_insert(m: Seq<(String, String)>, k: String, v: String)
    ensures
        to_map(m).insert(k@, v).map_values(|x: String| x@) =~= text_map(m).insert(k@, v@),
{
}

/// Merges named texts from layers: `defaults` first (for a name given twice
/// there, the first text counts), then each of `layers` in order, where a
/// name's text replaces any earlier one.
pub fn merge_layers(defaults: &[(String, String)], layers: &[Vec<(String, String)>]) -> (r: Vec<
    (String, String),
>)
    ensures
        keys_unique(r@),
        text_map(r@) == spec_merge_layers(
            text_pairs(defaults@),
            layers@.map_values(|l: Vec<(String, String)>| text_pairs(l@)),
        ),
{
    let mut m: Vec<(String, String)> = Vec::new();
    let mut i: usize = 0;
    assert(text_map(m@) =~= first_wins_pairs(text_pairs(defaults@).take(0)));
    while i < defaults.len()
        invariant
            0 <= i <= defaults.len(),
            keys_unique(m@),
            text_map(m@) == first_wins_pairs(text_pairs(defaults@).take(i as int)),
        decreases defaults.len() - i,
    {
        let ghost before = m@;
        assert(text_pairs(defaults@).take(i + 1).drop_last() =~= text_pairs(defaults@).take(
            i as int,
        ));
        map_insert_if_absent(&mut m, defaults[i].0.clone(), defaults[i].1.clone());
        proof {
            if to_map(before).contains_key(defaults@[i as int].0@) {
            } else {
                lemma_text_map_insert(before, defaults@[i as int].0, defaults@[i as int].1);
            }
            assert(to_map(before).contains_key(defaults@[i as int].0@) == text_map(
                before,
            ).contains_key(defaults@[i as int].0@));
        }
        i = i + 1;
    }
    assert(text_pairs(defaults@).take(defaults.len() as int) =~= text_pairs(defaults@));
    let ghost all = layers@.map_values(|l: Vec<(String, String)>| text_pairs(l@));
    let mut j: usize = 0;
    assert(all.take(0) =~= seq![]);
    while j < layers.len()
        invariant
            0 <= j <= layers.len(),
            all == layers@.map_values(|l: Vec<(String, String)>| text_pairs(l@)),
            keys_unique(m@),
            text_map(m@) == spec_merge_layers(text_pairs(defaults@), all.take(j as int)),
        decreases layers.len() - j,
    {
        let layer = &layers[j];
        let ghost base = text_map(m@);
        let mut k: usize = 0;
        assert(base.union_prefer_right(last_wins_pairs(text_pairs(layer@).take(0))) =~= base);
        while k < layer.len()
            invariant
                0 <= k <= layer.len(),
                keys_unique(m@),
                text_map(m@) == base.union_prefer_right(
                    last_wins_pairs(text_pairs(layer@).take(k as int)),
                ),
            decreases layer.len() - k,
        {
            let ghost before = m@;
            assert(text_pairs(layer@).take(k + 1).drop_last() =~= text_pairs(layer@).take(
                k as int,
            ));
            map_insert(&mut m, layer[k].0.clone(), layer[k].1.clone());
            proof {
                lemma_text_map_insert(before, layer@[k as int].0, layer@[k as int].1);
                assert(text_map(m@) =~= base.union_prefer_right(
                    last_wins_pairs(text_pairs(layer@).take(k + 1)),
                ));
            }
            k = k + 1;
        }
        assert(text_pairs(layer@).take(layer.len() as int) =~= text_pairs(layer@));
        assert(all.take(j + 1).drop_last() =~= all.take(j as int));
        assert(all.take(j + 1).last() == text_pairs(layer@));
        j = j + 1;
    }
    assert(all.take(layers.len() as int) =~= all);
    m
}

/// The files to write to put the defaults `files` into `dir`: each file's
/// path in `dir` with its content.
pub open spec fn spec_default_writes(files: Seq<(String, String)>, dir: Seq<char>) -> Seq<
    (Seq<char>, Seq<char>),
> {
    files.map_values(|f: (String, String)| (spec_join_path(dir, f.0@), f.1@))
}

/// The writes that copy the default files into `dir`.
pub fn default_writes(files: &[(String, String)], dir: &str) -> (r: Vec<(String, String)>)
    ensures
        r@.len() == files@.len(),
        forall|i: int|
            0 <= i < r@.len() ==> (#[trigger] r@[i]).0@ == spec_default_writes(files@, dir@)[i].0
                && r@[i].1@ == spec_default_writes(files@, dir@)[i].1,
{
    let mut r: Vec<(String, String)> = Vec::new();
    let mut i: usize = 0;
    while i < files.len()
        invariant
            0 <= i <= files.len(),
            r@.len() == i,
            forall|k: int|
                0 <= k < i ==> (#[trigger] r@[k]).0@ == spec_join_path(dir@, files@[k].0@)
                    && r@[k].1@ == files@[k].1@,
        decreases files.len() - i,
    {
        r.push((join_path(dir, files[i].0.as_str()), files[i].1.clone()));
        i = i + 1;
    }
    r
}

/// The names of the default files that `dir` lacks or holds with other
/// content; `on_disk[i]` is what `dir` holds under the name of `files[i]`.
pub open spec fn spec_changed_files(files: Seq<(String, String)>, on_disk: Seq<Option<String>>) -> Seq<
    Seq<char>,
>
    decreases files.len(),
{
    if files.len() == 0 || on_disk.len() != files.len() {
        seq![]
    } else {
        let rest = spec_changed_files(files.drop_last(), on_disk.drop_last());
        let same = match on_disk.last() {
            Some(c) => c@ == files.last().1@,
            None => false,
        };
        if same {
            rest
        } else {
            rest.push(files.last().0@)
        }
    }
}

/// Names of the default files that are missing or modified on disk.
pub fn changed_files(files: &[(String, String)], on_disk: &[Option<String>]) -> (r: Vec<String>)
    requires
        files.len() == on_disk.len(),
    ensures
        r@.len() == spec_changed_files(files@, on_disk@).len(),
        forall|i: int| 0 <= i < r@.len() ==> #[trigger] r@[i]@ == spec_changed_files(files@, on_disk@)[i],
{
    let mut r: Vec<String> = Vec::new();
    let mut i: usize = 0;
    while i < files.len()
        invariant
            files.len() == on_disk.len(),
            0 <= i <= files.len(),
            r@.len() == spec_changed_files(files@.take(i as int), on_disk@.take(i as int)).len(),
            forall|k: int|
                0 <= k < r@.len() ==> #[trigger] r@[k]@ == spec_changed_files(
                    files@.take(i as int),
                    on_disk@.take(i as int),
                )[k],
        decreases files.len() - i,
    {
        assert(files@.take(i + 1).drop_last() =~= files@.take(i as int));
        assert(on_disk@.take(i + 1).drop_last() =~= on_disk@.take(i as int));
        let same = match &on_disk[i] {
            Some(c) => crate::text::str_eq(c.as_str(), files[i].1.as_str()),
            None => false,
        };
        if !same {
            r.push(files[i].0.clone());
        }
        i = i + 1;
    }
    assert(files@.take(files.len() as int) =~= files@);
    assert(on_disk@.take(files.len() as int) =~= on_disk@);
    r
}

} // verus!
