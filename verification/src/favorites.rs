//! Favorites: the shortcuts offered on the landing page, and their markup.

use vstd::prelude::*;
use crate::path::{file_name, file_name_of, normalize_path, normalized, Platform};
use crate::resolve::{expand_tilde, home_directory, is_home_relative, tilde_expanded};
use crate::text::{kept, opt_str, opt_text, push_char, replace_all, replaced, texts};

verus! {

/// What one character turns into inside markup.
pub open spec fn escaped_char(c: char) -> Seq<char> {
    if c == '&' {
        "&amp;"@
    } else if c == '<' {
        "&lt;"@
    } else if c == '>' {
        "&gt;"@
    } else if c == '"' {
        "&quot;"@
    } else {
        seq![c]
    }
}

/// `s` with `&`, `<`, `>` and `"` written as entities.
pub open spec fn escaped(s: Seq<char>) -> Seq<char> {
    s.map_values(|c: char| escaped_char(c)).flatten()
}

/// Makes a string safe to place in markup, also inside a quoted attribute.
pub fn escape(s: String) -> (r: String)
    ensures
        r@ == escaped(s@),
{
    let mut r = String::new();
    for c in it: s.as_str().chars()
        invariant
            it.seq() == s@,
            r@ == escaped(s@.take(it.index() as int)),
    {
        let ghost done = s@.take(it.index() as int).map_values(|c: char| escaped_char(c));
        if c == '&' {
            r.append("&amp;");
        } else if c == '<' {
            r.append("&lt;");
        } else if c == '>' {
            r.append("&gt;");
        } else if c == '"' {
            r.append("&quot;");
        } else {
            push_char(&mut r, c);
            assert(r@ =~= done.flatten() + seq![c]);
        }
        proof {
            assert(s@.take(it.index() + 1).map_values(|c: char| escaped_char(c)) =~= done.push(
                escaped_char(c),
            ));
            done.lemma_flatten_push(escaped_char(c));
        }
    }
    assert(s@.take(s@.len() as int) =~= s@);
    r
}

/// The markup of one favorite: a link that carries the normal form of the
/// path, shown under the given name. Both are escaped.
pub open spec fn fav_html(name: Seq<char>, path: Seq<char>) -> Seq<char> {
    let href = escaped(normalized(path));
    let title = escaped(name);
    "<div><a href=\""@ + href + "\" title=\""@ + title + "\" data-folder=\""@ + href + "\">"@
        + title + "</a></div>"@
}

/// Renders one favorite.
pub fn create_fav_html(name: String, path: String) -> (r: String)
    ensures
        r@ == fav_html(name@, path@),
{
    let href = escape(normalize_path(path.as_str()));
    let title = escape(name);
    let mut r = String::new();
    r.append("<div><a href=\"");
    r.append(href.as_str());
    r.append("\" title=\"");
    r.append(title.as_str());
    r.append("\" data-folder=\"");
    r.append(href.as_str());
    r.append("\">");
    r.append(title.as_str());
    r.append("</a></div>");
    assert(r@ =~= fav_html(name@, path@));
    r
}


/// A shortcut: the name it is shown under and the location it leads to.
#[derive(Debug)]
pub struct Favorite {
    pub name: String,
    pub path: String,
}

/// A favorite as plain text.
pub struct FavoriteView {
    pub name: Seq<char>,
    pub path: Seq<char>,
}

impl View for Favorite {
    type V = FavoriteView;

    open spec fn view(&self) -> FavoriteView {
        FavoriteView { name: self.name@, path: self.path@ }
    }
}

/// The views of a sequence of favorites.
pub open spec fn favorite_views(favorites: Seq<Favorite>) -> Seq<FavoriteView> {
    Seq::new(favorites.len(), |i: int| favorites[i]@)
}

/// The pieces of a `;`-separated list. There is always at least one piece,
/// and a list that ends in `;` has an empty last piece.
pub open spec fn split_list(list: Seq<char>) -> Seq<Seq<char>>
    decreases list.len(),
{
    if list.len() == 0 {
        seq![Seq::empty()]
    } else {
        let front = split_list(list.drop_last());
        if list.last() == ';' {
            front.push(Seq::empty())
        } else {
            front.drop_last().push(front.last().push(list.last()))
        }
    }
}

/// Pieces written one after the other with a `;` between neighbours.
pub open spec fn join_list(pieces: Seq<Seq<char>>) -> Seq<char>
    decreases pieces.len(),
{
    if pieces.len() == 0 {
        Seq::empty()
    } else if pieces.len() == 1 {
        pieces[0]
    } else {
        join_list(pieces.drop_last()) + seq![';'] + pieces.last()
    }
}

/// Splitting loses nothing: no piece holds a `;`, and the pieces joined by
/// `;` give the list back.
pub proof fn lemma_join_inverts_split(list: Seq<char>)
    ensures
        split_list(list).len() >= 1,
        forall|i: int|
            0 <= i < split_list(list).len() ==> !(#[trigger] split_list(list)[i]).contains(';'),
        join_list(split_list(list)) == list,
    decreases list.len(),
{
    if list.len() == 0 {
        assert(join_list(split_list(list)) =~= list);
    } else {
        let shorter = list.drop_last();
        lemma_join_inverts_split(shorter);
        let front = split_list(shorter);
        let pieces = split_list(list);
        assert(list =~= shorter.push(list.last()));
        if list.last() == ';' {
            assert(pieces.drop_last() =~= front);
            assert(join_list(pieces) == join_list(front) + seq![';'] + pieces.last());
            assert(join_list(pieces) =~= list);
        } else {
            let grown = front.last().push(list.last());
            assert(pieces.last() == grown);
            if front.len() == 1 {
                assert(front[0] == join_list(front));
                assert(join_list(pieces) =~= list);
            } else {
                assert(pieces.drop_last() =~= front.drop_last());
                assert(join_list(pieces) =~= join_list(front.drop_last()) + seq![';'] + grown);
                assert(join_list(pieces) =~= list);
            }
            assert forall|i: int| 0 <= i < pieces.len() implies !(#[trigger] pieces[i]).contains(
                ';',
            ) by {
                if i < pieces.len() - 1 {
                    assert(pieces[i] == front[i]);
                } else {
                    assert(!front.last().contains(';'));
                    assert forall|k: int| 0 <= k < grown.len() implies grown[k] != ';' by {
                        if k < front.last().len() {
                            assert(front.last()[k] == grown[k]);
                        }
                    }
                }
            }
        }
    }
}

/// Splits a `;`-separated list into its pieces.
pub fn split_paths(list: &str) -> (pieces: Vec<String>)
    ensures
        texts(pieces@) == split_list(list@),
{
    let mut done: Vec<String> = Vec::new();
    let mut current = String::new();
    assert(texts(done@).push(current@) =~= split_list(list@.take(0)));
    for c in it: list.chars()
        invariant
            it.seq() == list@,
            texts(done@).push(current@) == split_list(list@.take(it.index() as int)),
    {
        let ghost front = texts(done@).push(current@);
        assert(list@.take(it.index() + 1).drop_last() =~= list@.take(it.index() as int));
        if c == ';' {
            done.push(current);
            current = String::new();
            assert(texts(done@).push(current@) =~= front.push(Seq::empty()));
        } else {
            push_char(&mut current, c);
            assert(texts(done@).push(current@) =~= front.drop_last().push(front.last().push(c)));
        }
    }
    assert(list@.take(list@.len() as int) =~= list@);
    let ghost last = current@;
    let ghost front = texts(done@);
    done.push(current);
    assert(texts(done@) =~= front.push(last));
    done
}

/// The favorite that one configured path stands for: the path with `~/`
/// expanded, named after its final segment. A path without a final segment
/// stands for none.
pub open spec fn candidate_of(
    entry: Seq<char>,
    home: Option<Seq<char>>,
    platform: Platform,
) -> Option<FavoriteView> {
    let path = tilde_expanded(entry, home);
    match file_name_of(normalized(path), platform) {
        Some(name) => Some(FavoriteView { name, path }),
        None => None,
    }
}

/// The favorites that the configured paths stand for, in the order configured.
pub open spec fn candidates_of(
    entries: Seq<Seq<char>>,
    home: Option<Seq<char>>,
    platform: Platform,
) -> Seq<FavoriteView>
    decreases entries.len(),
{
    if entries.len() == 0 {
        Seq::empty()
    } else {
        let front = candidates_of(entries.drop_last(), home, platform);
        match candidate_of(entries.last(), home, platform) {
            Some(favorite) => front.push(favorite),
            None => front,
        }
    }
}

/// Reads the configured favorites: a `;`-separated list of paths, each of
/// which may open with `~/`. What is left to decide is which of them exist.
pub fn favorite_candidates(list: &str, home: Option<&str>, platform: Platform) -> (r: Vec<
    Favorite,
>)
    ensures
        favorite_views(r@) == candidates_of(split_list(list@), opt_str(home), platform),
{
    let entries = split_paths(list);
    let mut r: Vec<Favorite> = Vec::new();
    let mut i: usize = 0;
    assert(favorite_views(r@) =~= candidates_of(
        texts(entries@).take(0),
        opt_str(home),
        platform,
    ));
    while i < entries.len()
        invariant
            i <= entries.len(),
            favorite_views(r@) == candidates_of(
                texts(entries@).take(i as int),
                opt_str(home),
                platform,
            ),
        decreases entries.len() - i,
    {
        let ghost front = favorite_views(r@);
        assert(texts(entries@).take(i + 1).drop_last() =~= texts(entries@).take(i as int));
        let path = expand_tilde(entries[i].as_str(), home);
        let normal = normalize_path(path.as_str());
        match file_name(normal.as_str(), platform) {
            Some(name) => {
                let ghost added = FavoriteView { name: name@, path: path@ };
                r.push(Favorite { name, path });
                assert(favorite_views(r@) =~= front.push(added));
            },
            None => {},
        }
        i += 1;
    }
    assert(texts(entries@).take(entries@.len() as int) =~= texts(entries@));
    r
}

/// Whether none of the paths opens with `~/`, so that no home directory has
/// a say in what they stand for.
pub open spec fn none_home_relative(entries: Seq<Seq<char>>) -> bool {
    forall|i: int| 0 <= i < entries.len() ==> !is_home_relative(#[trigger] entries[i])
}

/// Paths of which none opens with `~/` stand for the same favorites whatever
/// the home directory is.
pub proof fn lemma_candidates_without_tilde(
    entries: Seq<Seq<char>>,
    home: Option<Seq<char>>,
    platform: Platform,
)
    requires
        none_home_relative(entries),
    ensures
        candidates_of(entries, home, platform) == candidates_of(entries, None, platform),
    decreases entries.len(),
{
    if entries.len() > 0 {
        let front = entries.drop_last();
        assert forall|i: int| 0 <= i < front.len() implies !is_home_relative(
            #[trigger] front[i],
        ) by {
            assert(front[i] == entries[i]);
        }
        lemma_candidates_without_tilde(front, home, platform);
        assert(!is_home_relative(entries[entries.len() - 1]));
    }
}

/// Reads the configured favorites against the home directory of the current
/// user.
///
/// The result is `favorite_candidates` applied to whatever home directory
/// the host reports, or to none. Where no configured path opens with `~/`
/// the home directory has no say, and the result is fixed.
pub fn configured_favorites(list: &str, platform: Platform) -> (r: Vec<Favorite>)
    ensures
        exists|home: Option<Seq<char>>|
            favorite_views(r@) == candidates_of(split_list(list@), home, platform),
        none_home_relative(split_list(list@)) ==> favorite_views(r@) == candidates_of(
            split_list(list@),
            None,
            platform,
        ),
{
    let home = home_directory();
    let r = match &home {
        Some(dir) => favorite_candidates(list, Some(dir.as_str()), platform),
        None => favorite_candidates(list, None, platform),
    };
    assert(favorite_views(r@) == candidates_of(split_list(list@), opt_text(home), platform));
    proof {
        if none_home_relative(split_list(list@)) {
            lemma_candidates_without_tilde(split_list(list@), opt_text(home), platform);
        }
    }
    r
}

/// The favorite a drive stands for: name and location are both the drive.
pub open spec fn drive_favorite(drive: Seq<char>) -> FavoriteView {
    FavoriteView { name: drive, path: drive }
}

/// The favorites of the landing page: every drive, then the configured
/// favorites that are present, each group in its own order.
pub open spec fn favorites_of(
    drives: Seq<Seq<char>>,
    candidates: Seq<FavoriteView>,
    present: Seq<bool>,
) -> Seq<FavoriteView> {
    Seq::new(drives.len(), |i: int| drive_favorite(drives[i])) + kept(candidates, present)
}

/// Puts the favorites of the landing page together. `present[i]` tells
/// whether the location of `candidates[i]` exists.
pub fn build_favorites(drives: &Vec<String>, candidates: Vec<Favorite>, present: &Vec<bool>) -> (r:
    Vec<Favorite>)
    ensures
        favorite_views(r@) == favorites_of(texts(drives@), favorite_views(candidates@), present@),
{
    let mut r: Vec<Favorite> = Vec::new();
    let mut i: usize = 0;
    while i < drives.len()
        invariant
            i <= drives.len(),
            favorite_views(r@) == Seq::new(i as nat, |k: int| drive_favorite(texts(drives@)[k])),
        decreases drives.len() - i,
    {
        let ghost front = favorite_views(r@);
        let ghost added = drive_favorite(drives@[i as int]@);
        r.push(Favorite { name: drives[i].clone(), path: drives[i].clone() });
        assert(favorite_views(r@) =~= front.push(added));
        i += 1;
    }
    let ghost from_drives = favorite_views(r@);
    let ghost all = favorite_views(candidates@);
    assert(all.len() == candidates.len());
    let mut at: usize = 0;
    assert(all.take(0) =~= Seq::<FavoriteView>::empty());
    assert(favorite_views(r@) =~= from_drives + kept(all.take(0), present@));
    for candidate in it: candidates
        invariant
            favorite_views(it.seq()) == all,
            all.len() <= usize::MAX,
            at == it.index(),
            favorite_views(r@) == from_drives + kept(all.take(at as int), present@),
    {
        let ghost front = favorite_views(r@);
        assert(all.take(at + 1).drop_last() =~= all.take(at as int));
        assert(candidate@ == all[at as int]);
        if at < present.len() && present[at] {
            r.push(candidate);
            assert(favorite_views(r@) =~= front.push(all[at as int]));
        }
        at += 1;
    }
    assert(all.take(all.len() as int) =~= all);
    r
}


/// The markup of a sequence of favorites: one after the other.
pub open spec fn favorites_html(favorites: Seq<FavoriteView>) -> Seq<char> {
    Seq::new(
        favorites.len(),
        |i: int| fav_html(favorites[i].name, favorites[i].path),
    ).flatten()
}

/// Renders the favorites of the landing page.
pub fn render_favorites(favorites: &Vec<Favorite>) -> (r: String)
    ensures
        r@ == favorites_html(favorite_views(favorites@)),
{
    let ghost all = favorite_views(favorites@);
    let ghost parts = Seq::new(all.len(), |i: int| fav_html(all[i].name, all[i].path));
    let mut r = String::new();
    let mut i: usize = 0;
    while i < favorites.len()
        invariant
            i <= favorites.len(),
            all == favorite_views(favorites@),
            parts == Seq::new(all.len(), |i: int| fav_html(all[i].name, all[i].path)),
            r@ == parts.take(i as int).flatten(),
        decreases favorites.len() - i,
    {
        let one = create_fav_html(favorites[i].name.clone(), favorites[i].path.clone());
        r.append(one.as_str());
        proof {
            assert(parts.take(i + 1) =~= parts.take(i as int).push(one@));
            parts.take(i as int).lemma_flatten_push(one@);
        }
        i += 1;
    }
    assert(parts.take(parts.len() as int) =~= parts);
    r
}

/// The marker in the landing page that the favorites take the place of.
pub open spec fn placeholder() -> Seq<char> {
    "{{favs}}"@
}

/// The landing page: the template with the markup of the favorites in the
/// place of every placeholder.
pub open spec fn index_page(template: Seq<char>, favorites: Seq<FavoriteView>) -> Seq<char> {
    replaced(template, placeholder(), favorites_html(favorites))
}

/// Fills the landing page template.
pub fn render_index(template: &str, favorites: &Vec<Favorite>) -> (r: String)
    ensures
        r@ == index_page(template@, favorite_views(favorites@)),
{
    let html = render_favorites(favorites);
    replace_all(template, "{{favs}}", html.as_str())
}

} // verus!
