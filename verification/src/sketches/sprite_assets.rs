//! Which files of the sprite folder the feedback sprite grid loads, and in
//! what order.
use vstd::prelude::*;
use vstd::string::*;
use crate::text::{
    ascii_lower, lemma_ascii_lower_non_letter, lemma_eq_ignore_ascii_case_transfer,
    lemma_file_extension_ignores_case, same_ignoring_ascii_case, eq_ignore_ascii_case, extension_of, file_extension, lex_le, lex_lt, lemma_lex_lt_irreflexive,
    lemma_lex_lt_total, lemma_lex_lt_transitive, str_eq_ignore_ascii_case, str_lt,
};

verus! {

broadcast use vstd::seq_lib::group_seq_properties;

/// Folder, below the asset root, that holds the sprite images.
pub const SPRITE_ASSET_FOLDER: &'static str = "pokemon";

/// The image file extensions the sketch loads, compared without ASCII case.
pub open spec fn supported_extensions() -> Seq<Seq<char>> {
    seq!["png"@, "jpg"@, "jpeg"@, "gif"@, "webp"@]
}

/// Whether `name` starts with `._`, the prefix of metadata files some systems
/// leave beside copied files.
pub open spec fn is_metadata_name(name: Seq<char>) -> bool {
    name.len() >= 2 && name[0] == '.' && name[1] == '_'
}

/// Whether the file `name` is a sprite image the sketch loads: not a
/// metadata file, and with one of the supported extensions.
pub open spec fn is_sprite_file(name: Seq<char>) -> bool {
    &&& !is_metadata_name(name)
    &&& file_extension(name) matches Some(ext)
    &&& exists|k: int| 0 <= k < 5 && eq_ignore_ascii_case(ext, #[trigger] supported_extensions()[k])
}

/// The asset path the sketch loads a sprite file from.
pub open spec fn sprite_asset_path_spec(name: Seq<char>) -> Seq<char> {
    SPRITE_ASSET_FOLDER@ + "/"@ + name
}

/// The asset paths of the sprite files among `names`, in the order of `names`.
pub open spec fn sprite_paths_in_order(names: Seq<Seq<char>>) -> Seq<Seq<char>>
    decreases names.len(),
{
    if names.len() == 0 {
        Seq::empty()
    } else {
        let earlier = sprite_paths_in_order(names.drop_last());
        if is_sprite_file(names.last()) {
            earlier.push(sprite_asset_path_spec(names.last()))
        } else {
            earlier
        }
    }
}

/// `s` is in nondecreasing lexicographic order.
pub open spec fn is_sorted(s: Seq<Seq<char>>) -> bool {
    forall|i: int, j: int| 0 <= i < j < s.len() ==> lex_le(#[trigger] s[i], #[trigger] s[j])
}

/// The texts of a list of strings.
pub open spec fn texts(v: Seq<String>) -> Seq<Seq<char>> {
    v.map_values(|s: String| s@)
}

/// A file is loaded as a sprite exactly when its name does not start with
/// `._` and its extension, as `Path::extension` gives it, is `png`, `jpg`,
/// `jpeg`, `gif` or `webp` with ASCII case ignored.
pub proof fn lemma_sprite_file_rule(name: Seq<char>)
    ensures
        is_sprite_file(name) == (!(name.len() >= 2 && name[0] == '.' && name[1] == '_')
            && file_extension(name) is Some && (eq_ignore_ascii_case(
            file_extension(name)->0,
            seq!['p', 'n', 'g'],
        ) || eq_ignore_ascii_case(file_extension(name)->0, seq!['j', 'p', 'g'])
            || eq_ignore_ascii_case(file_extension(name)->0, seq!['j', 'p', 'e', 'g'])
            || eq_ignore_ascii_case(file_extension(name)->0, seq!['g', 'i', 'f'])
            || eq_ignore_ascii_case(file_extension(name)->0, seq!['w', 'e', 'b', 'p']))),
{
    reveal_strlit("png");
    reveal_strlit("jpg");
    reveal_strlit("jpeg");
    reveal_strlit("gif");
    reveal_strlit("webp");
    let exts = supported_extensions();
    assert(exts[0] =~= seq!['p', 'n', 'g']);
    assert(exts[1] =~= seq!['j', 'p', 'g']);
    assert(exts[2] =~= seq!['j', 'p', 'e', 'g']);
    assert(exts[3] =~= seq!['g', 'i', 'f']);
    assert(exts[4] =~= seq!['w', 'e', 'b', 'p']);
    if let Some(e) = file_extension(name) {
        if eq_ignore_ascii_case(e, exts[0]) || eq_ignore_ascii_case(e, exts[1])
            || eq_ignore_ascii_case(e, exts[2]) || eq_ignore_ascii_case(e, exts[3])
            || eq_ignore_ascii_case(e, exts[4]) {
        } else {
            assert forall|k: int| 0 <= k < 5 implies !eq_ignore_ascii_case(e, #[trigger] exts[k]) by {}
        }
    }
}

/// Whether a file is loaded as a sprite does not depend on the ASCII case of
/// its name: `IMG_0042.JPG` is loaded exactly when `img_0042.jpg` is.
pub proof fn lemma_sprite_file_ignores_ascii_case(a: Seq<char>, b: Seq<char>)
    requires
        same_ignoring_ascii_case(a, b),
    ensures
        is_sprite_file(a) == is_sprite_file(b),
{
    if a.len() >= 2 {
        assert(ascii_lower(a[0]) == ascii_lower(b[0]));
        assert(ascii_lower(a[1]) == ascii_lower(b[1]));
        if a[0] == '.' {
            lemma_ascii_lower_non_letter(b[0], '.');
        }
        if b[0] == '.' {
            lemma_ascii_lower_non_letter(a[0], '.');
        }
        if a[1] == '_' {
            lemma_ascii_lower_non_letter(b[1], '_');
        }
        if b[1] == '_' {
            lemma_ascii_lower_non_letter(a[1], '_');
        }
    }
    lemma_file_extension_ignores_case(a, b);
    if file_extension(a) is Some {
        let ea = file_extension(a)->0;
        let eb = file_extension(b)->0;
        let exts = supported_extensions();
        assert forall|k: int| 0 <= k < 5 implies eq_ignore_ascii_case(ea, #[trigger] exts[k])
            == eq_ignore_ascii_case(eb, exts[k]) by {
            lemma_eq_ignore_ascii_case_transfer(ea, eb, exts[k]);
        }
    }
}

/// The listing holds, for every sprite file among the names and for nothing
/// else, the sprite folder `pokemon/` followed by the file name.
pub proof fn lemma_sprite_paths_are_prefixed_sprite_files(names: Seq<Seq<char>>, path: Seq<char>)
    ensures
        sprite_paths_in_order(names).contains(path) <==> exists|i: int|
            0 <= i < names.len() && is_sprite_file(#[trigger] names[i]) && path == seq![
                'p',
                'o',
                'k',
                'e',
                'm',
                'o',
                'n',
                '/',
            ] + names[i],
    decreases names.len(),
{
    reveal_strlit("pokemon");
    reveal_strlit("/");
    let folder = seq!['p', 'o', 'k', 'e', 'm', 'o', 'n', '/'];
    assert(SPRITE_ASSET_FOLDER@ + "/"@ =~= folder);
    if names.len() > 0 {
        let earlier = names.drop_last();
        lemma_sprite_paths_are_prefixed_sprite_files(earlier, path);
        let last = names.last();
        assert(sprite_asset_path_spec(last) =~= folder + last);
        if sprite_paths_in_order(names).contains(path) {
            if sprite_paths_in_order(earlier).contains(path) {
                let i = choose|i: int|
                    0 <= i < earlier.len() && is_sprite_file(#[trigger] earlier[i]) && path == folder
                        + earlier[i];
                assert(names[i] == earlier[i]);
            } else {
                assert(is_sprite_file(last) && path == sprite_asset_path_spec(last));
                assert(names[names.len() - 1] == last);
            }
        }
        if exists|i: int|
            0 <= i < names.len() && is_sprite_file(#[trigger] names[i]) && path == folder + names[i] {
            let i = choose|i: int|
                0 <= i < names.len() && is_sprite_file(#[trigger] names[i]) && path == folder
                    + names[i];
            if i < names.len() - 1 {
                assert(earlier[i] == names[i]);
                assert(sprite_paths_in_order(earlier).contains(path));
                if is_sprite_file(last) {
                    let k = choose|k: int|
                        0 <= k < sprite_paths_in_order(earlier).len() && sprite_paths_in_order(
                            earlier,
                        )[k] == path;
                    assert(sprite_paths_in_order(names)[k] == path);
                }
            } else {
                let all = sprite_paths_in_order(names);
                assert(all[all.len() - 1] == path);
            }
        }
    }
}

/// Whether some name among `names` is a sprite file.
pub open spec fn has_sprite_file(names: Seq<Seq<char>>) -> bool {
    exists|i: int| 0 <= i < names.len() && is_sprite_file(#[trigger] names[i])
}

/// Names that include a sprite file give at least one asset path.
pub proof fn lemma_sprite_paths_nonempty(names: Seq<Seq<char>>)
    requires
        has_sprite_file(names),
    ensures
        sprite_paths_in_order(names).len() > 0,
    decreases names.len(),
{
    let i = choose|i: int| 0 <= i < names.len() && is_sprite_file(#[trigger] names[i]);
    if !is_sprite_file(names.last()) {
        assert(i < names.len() - 1);
        assert(names.drop_last()[i] == names[i]);
        lemma_sprite_paths_nonempty(names.drop_last());
    }
}

/// Whether some name among `file_names` is a sprite file.
pub fn has_sprite_file_name(file_names: &Vec<String>) -> (found: bool)
    ensures
        found == has_sprite_file(texts(file_names@)),
{
    let ghost names = texts(file_names@);
    let mut i: usize = 0;
    while i < file_names.len()
        invariant
            i <= file_names.len(),
            names == texts(file_names@),
            forall|j: int| 0 <= j < i ==> !is_sprite_file(#[trigger] names[j]),
        decreases file_names.len() - i,
    {
        if is_sprite_file_name(file_names[i].as_str()) {
            assert(is_sprite_file(names[i as int]));
            return true;
        }
        i = i + 1;
    }
    false
}

/// Whether the file `name` is a sprite image the sketch loads.
pub fn is_sprite_file_name(name: &str) -> (b: bool)
    ensures
        b == is_sprite_file(name@),
{
    let len = name.unicode_len();
    if len >= 2 && name.get_char(0) == '.' && name.get_char(1) == '_' {
        return false;
    }
    match extension_of(name) {
        None => false,
        Some(ext) => {
            proof {
                reveal_strlit("png");
                reveal_strlit("jpg");
                reveal_strlit("jpeg");
                reveal_strlit("gif");
                reveal_strlit("webp");
            }
            let found = str_eq_ignore_ascii_case(ext, "png") || str_eq_ignore_ascii_case(ext, "jpg")
                || str_eq_ignore_ascii_case(ext, "jpeg") || str_eq_ignore_ascii_case(ext, "gif")
                || str_eq_ignore_ascii_case(ext, "webp");
            proof {
                let exts = supported_extensions();
                if found {
                    if eq_ignore_ascii_case(ext@, "png"@) {
                        assert(eq_ignore_ascii_case(ext@, exts[0]));
                    } else if eq_ignore_ascii_case(ext@, "jpg"@) {
                        assert(eq_ignore_ascii_case(ext@, exts[1]));
                    } else if eq_ignore_ascii_case(ext@, "jpeg"@) {
                        assert(eq_ignore_ascii_case(ext@, exts[2]));
                    } else if eq_ignore_ascii_case(ext@, "gif"@) {
                        assert(eq_ignore_ascii_case(ext@, exts[3]));
                    } else {
                        assert(eq_ignore_ascii_case(ext@, exts[4]));
                    }
                } else {
                    assert forall|k: int| 0 <= k < 5 implies !eq_ignore_ascii_case(
                        ext@,
                        #[trigger] exts[k],
                    ) by {
                        if k == 0 {
                            assert(exts[0] == "png"@);
                        } else if k == 1 {
                            assert(exts[1] == "jpg"@);
                        } else if k == 2 {
                            assert(exts[2] == "jpeg"@);
                        } else if k == 3 {
                            assert(exts[3] == "gif"@);
                        } else {
                            assert(exts[4] == "webp"@);
                        }
                    }
                }
            }
            found
        },
    }
}

/// The asset path the sketch loads sprite file `name` from: `pokemon/` then the name.
pub fn sprite_asset_path(name: &str) -> (path: String)
    ensures
        path@ == sprite_asset_path_spec(name@),
{
    let mut path = String::from_str(SPRITE_ASSET_FOLDER);
    path.append("/");
    path.append(name);
    path
}

/// The asset paths of the sprite files among `file_names`, sorted in the
/// order of their bytes: the supported image files that are not `._`
/// metadata files, each prefixed with the sprite folder.
///
/// A folder without any sprite file is an error the caller reports before
/// asking for the listing, so some name must be a sprite file; the listing is
/// then never empty.
pub fn sprite_asset_paths(file_names: &Vec<String>) -> (paths: Vec<String>)
    requires
        has_sprite_file(texts(file_names@)),
    ensures
        texts(paths@).to_multiset() == sprite_paths_in_order(texts(file_names@)).to_multiset(),
        is_sorted(texts(paths@)),
        paths.len() > 0,
{
    proof {
        lemma_sprite_paths_nonempty(texts(file_names@));
    }
    let ghost names = texts(file_names@);
    // Keep the sprite files, in the order given.
    let mut kept: Vec<String> = Vec::new();
    let mut i: usize = 0;
    while i < file_names.len()
        invariant
            i <= file_names.len(),
            names == texts(file_names@),
            texts(kept@) == sprite_paths_in_order(names.take(i as int)),
        decreases file_names.len() - i,
    {
        let name = file_names[i].as_str();
        let ghost kept_before = kept@;
        proof {
            assert(name@ == names[i as int]);
            assert(names.take(i + 1).drop_last() =~= names.take(i as int));
            assert(names.take(i + 1).last() == names[i as int]);
        }
        if is_sprite_file_name(name) {
            let path = sprite_asset_path(name);
            kept.push(path);
            proof {
                assert(texts(kept@) =~= texts(kept_before).push(path@));
            }
        } else {
            proof {
                assert(texts(kept@) =~= texts(kept_before));
            }
        }
        i = i + 1;
    }
    proof {
        assert(names.take(names.len() as int) =~= names);
    }
    // Insertion sort.
    let mut sorted: Vec<String> = Vec::new();
    let mut j: usize = 0;
    while j < kept.len()
        invariant
            j <= kept.len(),
            texts(sorted@).to_multiset() == texts(kept@).take(j as int).to_multiset(),
            is_sorted(texts(sorted@)),
        decreases kept.len() - j,
    {
        let item = kept[j].clone();
        let mut p: usize = 0;
        while p < sorted.len() && !str_lt(item.as_str(), sorted[p].as_str())
            invariant
                p <= sorted.len(),
                forall|q: int| 0 <= q < p ==> !lex_lt(item@, #[trigger] texts(sorted@)[q]),
            decreases sorted.len() - p,
        {
            p = p + 1;
        }
        let ghost before = texts(sorted@);
        proof {
            // Everything before `p` is at most `item`; everything from `p` on is above it.
            assert forall|q: int| 0 <= q < p implies lex_le(#[trigger] before[q], item@) by {
                lemma_lex_lt_total(before[q], item@);
            }
            assert forall|q: int| p <= q < before.len() implies lex_lt(item@, #[trigger] before[q]) by {
                if p < before.len() {
                    assert(lex_lt(item@, before[p as int]));
                    if q > p {
                        assert(lex_le(before[p as int], before[q]));
                        if before[p as int] != before[q] {
                            lemma_lex_lt_transitive(item@, before[p as int], before[q]);
                        }
                    }
                }
            }
        }
        sorted.insert(p, item);
        proof {
            let after = texts(sorted@);
            assert(after =~= before.insert(p as int, kept@[j as int]@));
            vstd::seq_lib::to_multiset_insert(before, p as int, kept@[j as int]@);
            assert(texts(kept@).take(j + 1) =~= texts(kept@).take(j as int).push(kept@[j as int]@));
            assert forall|a: int, b: int| 0 <= a < b < after.len() implies lex_le(
                #[trigger] after[a],
                #[trigger] after[b],
            ) by {
                if b < p {
                    assert(after[a] == before[a] && after[b] == before[b]);
                } else if b == p {
                    assert(after[a] == before[a]);
                } else if a == p {
                    assert(after[b] == before[b - 1]);
                    lemma_lex_lt_irreflexive(item@);
                } else if a < p {
                    assert(after[a] == before[a] && after[b] == before[b - 1]);
                    if before[a] != item@ {
                        lemma_lex_lt_transitive(before[a], item@, before[b - 1]);
                    }
                } else {
                    assert(after[a] == before[a - 1] && after[b] == before[b - 1]);
                }
            }
        }
        j = j + 1;
    }
    proof {
        assert(texts(kept@).take(kept.len() as int) =~= texts(kept@));
        vstd::seq_lib::to_multiset_len(texts(sorted@));
        vstd::seq_lib::to_multiset_len(sprite_paths_in_order(texts(file_names@)));
        assert(texts(sorted@).len() == sorted@.len());
    }
    sorted
}

} // verus!
