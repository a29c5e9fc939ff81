//! The decisions taken while scanning the game folders: which games leave the
//! library, what to ask ErogameScape about a folder, and what to record.
use vstd::prelude::*;
use vstd::string::StringExecFns;
use vstd::utf8::{
    decode_utf8, decode_utf8_encode_utf8, decode_utf8_split, encode_utf8, encode_utf8_decode_utf8,
    encode_utf8_valid_utf8, is_char_boundary, valid_utf8_split,
};

use crate::text::{decimal_i64, decimal_text, parse_i32, parsed_i32, same_text};

verus! {

/// A row of ErogameScape's `gamelist` as the scan asks for it.
#[derive(Debug)]
pub struct EsGame {
    pub id: i64,
    pub gamename: String,
    pub brandname: i64,
    pub gyutto_id: Option<i64>,
    pub dmm: Option<String>,
    pub dmm_genre: Option<String>,
    pub dmm_genre_2: Option<String>,
    pub dlsite_id: Option<String>,
    pub dlsite_domain: Option<String>,
    pub digiket: Option<String>,
    pub comike: Option<i64>,
}

/// An [`EsGame`] with its texts as characters.
pub struct EsGameView {
    pub id: i64,
    pub gamename: Seq<char>,
    pub brandname: i64,
    pub gyutto_id: Option<i64>,
    pub dmm: Option<Seq<char>>,
    pub dmm_genre: Option<Seq<char>>,
    pub dmm_genre_2: Option<Seq<char>>,
    pub dlsite_id: Option<Seq<char>>,
    pub dlsite_domain: Option<Seq<char>>,
    pub digiket: Option<Seq<char>>,
    pub comike: Option<i64>,
}

impl View for EsGame {
    type V = EsGameView;

    open spec fn view(&self) -> EsGameView {
        EsGameView {
            id: self.id,
            gamename: self.gamename@,
            brandname: self.brandname,
            gyutto_id: self.gyutto_id,
            dmm: self.dmm.deep_view(),
            dmm_genre: self.dmm_genre.deep_view(),
            dmm_genre_2: self.dmm_genre_2.deep_view(),
            dlsite_id: self.dlsite_id.deep_view(),
            dlsite_domain: self.dlsite_domain.deep_view(),
            digiket: self.digiket.deep_view(),
            comike: self.comike,
        }
    }
}

/// The package image of a DMM title.
pub open spec fn dmm_image_url(dmm: Seq<char>, genre: Seq<char>, genre_2: Seq<char>) -> Seq<char> {
    "https://pics.dmm.co.jp/"@ + genre + "/pcgame/"@ + dmm + "/"@ + dmm + "p"@ + (if genre_2
        == "doujin"@ {
        "r"@
    } else {
        "l"@
    }) + ".jpg"@
}

/// The DLsite floor of a domain.
pub open spec fn dlsite_floor(domain: Seq<char>) -> Seq<char> {
    if domain == "pro"@ || domain == "pro2"@ {
        "professional"@
    } else {
        "doujin"@
    }
}

/// `n / d` rounded toward zero, as integer division in Rust rounds.
pub open spec fn div_toward_zero(n: int, d: int) -> int {
    if n >= 0 {
        n / d
    } else {
        -((-n) / d)
    }
}

/// The characters whose UTF-8 encoding is bytes `from..to` of that of `s`.
pub open spec fn byte_range(s: Seq<char>, from: int, to: int) -> Seq<char> {
    decode_utf8(encode_utf8(s).subrange(from, to))
}

/// The number that the last five bytes of a DLsite id read as.
pub open spec fn dlsite_number(id: Seq<char>) -> Option<i32> {
    let n = encode_utf8(id).len() as int;
    parsed_i32(byte_range(id, n - 5, n))
}

/// Whether the DLsite image of `id` can be formed: the id is at least five
/// bytes long and is cut on character boundaries, five bytes from its end
/// and, when those bytes read as a number, two bytes from its start.
pub open spec fn dlsite_id_well_cut(id: Seq<char>) -> bool {
    let b = encode_utf8(id);
    &&& b.len() >= 5
    &&& is_char_boundary(b, b.len() - 5)
    &&& dlsite_number(id) is Some ==> is_char_boundary(b, 2)
}

/// The package image of a DLsite title: its directory is the work number cut
/// to the ten thousands below it, after the id's two-byte prefix.
pub open spec fn dlsite_image_url(domain: Seq<char>, id: Seq<char>) -> Option<Seq<char>> {
    match dlsite_number(id) {
        Some(n) => Some(
            "http://img.dlsite.jp/modpub/images2/work/"@ + dlsite_floor(domain) + "/"@
                + byte_range(id, 0, 2) + decimal_text(div_toward_zero(n as int, 10000) * 10000)
                + "/"@ + id,
        ),
        None => None,
    }
}

/// The DLsite image of a well-cut id whose last five bytes read as a number
/// `n`: the floor of the domain, then the id's own first two bytes, then the
/// directory number, which is `n` cut toward zero to a multiple of ten
/// thousand, then the id.
pub proof fn law_dlsite_image_path(domain: Seq<char>, id: Seq<char>)
    requires
        dlsite_id_well_cut(id),
        dlsite_number(id) is Some,
    ensures
        ({
            let n = dlsite_number(id)->0 as int;
            let prefix = byte_range(id, 0, 2);
            let dir = div_toward_zero(n, 10000) * 10000;
            &&& prefix.is_prefix_of(id)
            &&& encode_utf8(prefix) == encode_utf8(id).subrange(0, 2)
            &&& dir % 10000 == 0
            &&& n >= 0 ==> 0 <= dir <= n < dir + 10000
            &&& n < 0 ==> dir - 10000 < n <= dir <= 0
            &&& dlsite_image_url(domain, id) == Some(
                "http://img.dlsite.jp/modpub/images2/work/"@ + (if domain == "pro"@ || domain
                    == "pro2"@ {
                    "professional"@
                } else {
                    "doujin"@
                }) + "/"@ + prefix + decimal_text(dir) + "/"@ + id,
            )
        }),
{
    let b = encode_utf8(id);
    encode_utf8_valid_utf8(id);
    encode_utf8_decode_utf8(id);
    valid_utf8_split(b, 2);
    decode_utf8_split(b, 2);
    decode_utf8_encode_utf8(b.subrange(0, 2));
    let prefix = byte_range(id, 0, 2);
    let rest = decode_utf8(b.subrange(2, b.len() as int));
    assert(id =~= prefix + rest);
    assert(id.subrange(0, prefix.len() as int) =~= prefix);
    let n = dlsite_number(id)->0 as int;
    if n >= 0 {
        vstd::arithmetic::div_mod::lemma_fundamental_div_mod(n, 10000);
        vstd::arithmetic::div_mod::lemma_mod_multiples_basic(n / 10000, 10000);
    } else {
        vstd::arithmetic::div_mod::lemma_fundamental_div_mod(-n, 10000);
        vstd::arithmetic::div_mod::lemma_mod_multiples_basic(-((-n) / 10000), 10000);
    }
}

/// Where a game's main image comes from: the DMM data decides whenever it is
/// complete, whatever the DLsite data; otherwise the DLsite domain and id
/// decide, and with neither there is no image.
pub proof fn law_main_image_sources(g: EsGameView, h: EsGameView)
    ensures
        g.dmm is Some && g.dmm_genre is Some && g.dmm_genre_2 is Some ==> main_image(g) is Some,
        g.dmm == h.dmm && g.dmm_genre == h.dmm_genre && g.dmm_genre_2 == h.dmm_genre_2
            && g.dmm is Some && g.dmm_genre is Some && g.dmm_genre_2 is Some ==> main_image(g)
            == main_image(h),
        !(g.dmm is Some && g.dmm_genre is Some && g.dmm_genre_2 is Some) && (g.dlsite_domain is None
            || g.dlsite_id is None) ==> main_image(g) is None,
        !(g.dmm is Some && g.dmm_genre is Some && g.dmm_genre_2 is Some) && g.dlsite_domain is Some
            && g.dlsite_id is Some ==> main_image(g) == dlsite_image_url(
            g.dlsite_domain->0,
            g.dlsite_id->0,
        ) && (main_image(g) is None <==> dlsite_number(g.dlsite_id->0) is None),
{
}

/// The DMM package image ends in `.jpg`; the one letter before it is `r` for
/// a `doujin` second genre and `l` otherwise, and the rest of the address
/// does not depend on the second genre.
pub proof fn law_dmm_image_letter(dmm: Seq<char>, genre: Seq<char>, a: Seq<char>, b: Seq<char>)
    ensures
        ({
            let u = dmm_image_url(dmm, genre, a);
            let v = dmm_image_url(dmm, genre, b);
            &&& u.len() == v.len()
            &&& u.len() >= 5
            &&& u.subrange(u.len() - 4, u.len() as int) == ".jpg"@
            &&& u[u.len() - 5] == (if a == "doujin"@ {
                'r'
            } else {
                'l'
            })
            &&& u.subrange(0, u.len() - 5) == v.subrange(0, v.len() - 5)
        }),
{
    reveal_strlit(".jpg");
    reveal_strlit("r");
    reveal_strlit("l");
    let u = dmm_image_url(dmm, genre, a);
    let v = dmm_image_url(dmm, genre, b);
    let base = "https://pics.dmm.co.jp/"@ + genre + "/pcgame/"@ + dmm + "/"@ + dmm + "p"@;
    let la = if a == "doujin"@ { "r"@ } else { "l"@ };
    let lb = if b == "doujin"@ { "r"@ } else { "l"@ };
    assert(u =~= base + la + ".jpg"@);
    assert(v =~= base + lb + ".jpg"@);
    assert(u.subrange(u.len() - 4, u.len() as int) =~= ".jpg"@);
    assert(u.subrange(0, u.len() - 5) =~= base);
    assert(v.subrange(0, v.len() - 5) =~= base);
}

/// Whether [`main_image_url`] can be taken of `g`: only a DLsite id that is
/// cut off a character is refused, and only when DMM data is missing.
pub open spec fn main_image_defined(g: EsGameView) -> bool {
    (g.dmm is None || g.dmm_genre is None || g.dmm_genre_2 is None) && g.dlsite_domain is Some
        && g.dlsite_id is Some ==> dlsite_id_well_cut(g.dlsite_id->0)
}

/// The main image of a game: the DMM package when all DMM data is there, else
/// the DLsite package when the domain and id are there and the id's last five
/// bytes read as a number, else none.
pub open spec fn main_image(g: EsGameView) -> Option<Seq<char>> {
    if g.dmm is Some && g.dmm_genre is Some && g.dmm_genre_2 is Some {
        Some(dmm_image_url(g.dmm->0, g.dmm_genre->0, g.dmm_genre_2->0))
    } else if g.dlsite_domain is Some && g.dlsite_id is Some {
        dlsite_image_url(g.dlsite_domain->0, g.dlsite_id->0)
    } else {
        None
    }
}

fn dmm_url(dmm: &str, genre: &str, genre_2: &str) -> (r: String)
    ensures
        r@ == dmm_image_url(dmm@, genre@, genre_2@),
{
    let mut r = String::from_str("https://pics.dmm.co.jp/");
    r.append(genre);
    r.append("/pcgame/");
    r.append(dmm);
    r.append("/");
    r.append(dmm);
    r.append("p");
    if same_text(genre_2, "doujin") {
        r.append("r");
    } else {
        r.append("l");
    }
    r.append(".jpg");
    r
}

/// Whether a DLsite id can be cut where [`main_image_url`] cuts it.
pub fn dlsite_id_is_well_cut(id: &str) -> (r: bool)
    ensures
        r == dlsite_id_well_cut(id@),
{
    let n = id.as_bytes().len();
    proof {
        encode_utf8_valid_utf8(id@);
    }
    if n < 5 || !id.is_char_boundary(n - 5) {
        return false;
    }
    let (_, tail) = id.split_at(n - 5);
    proof {
        encode_utf8_decode_utf8(tail@);
    }
    match parse_i32(tail) {
        Some(_) => id.is_char_boundary(2),
        None => true,
    }
}

fn dlsite_url(domain: &str, id: &str) -> (r: Option<String>)
    requires
        dlsite_id_well_cut(id@),
    ensures
        r.deep_view() == dlsite_image_url(domain@, id@),
{
    let n = id.as_bytes().len();
    proof {
        encode_utf8_valid_utf8(id@);
    }
    let (_, tail) = id.split_at(n - 5);
    proof {
        encode_utf8_decode_utf8(tail@);
    }
    let number = match parse_i32(tail) {
        Some(v) => v,
        None => return None,
    };
    let (head, _) = id.split_at(2);
    proof {
        encode_utf8_decode_utf8(head@);
    }
    let wide = number as i64;
    let directory: i64 = if wide >= 0 { wide / 10000 } else { 0 - (0 - wide) / 10000 } * 10000;
    let floor = if same_text(domain, "pro") || same_text(domain, "pro2") {
        "professional"
    } else {
        "doujin"
    };
    let mut r = String::from_str("http://img.dlsite.jp/modpub/images2/work/");
    r.append(floor);
    r.append("/");
    r.append(head);
    r.append(decimal_i64(directory).as_str());
    r.append("/");
    r.append(id);
    Some(r)
}

/// Whether [`main_image_url`] can be taken of `g`.
pub fn can_take_main_image(g: &EsGame) -> (r: bool)
    ensures
        r == main_image_defined(g@),
{
    match (&g.dmm, &g.dmm_genre, &g.dmm_genre_2) {
        (Some(_), Some(_), Some(_)) => return true,
        _ => {},
    }
    match &g.dlsite_id {
        Some(id) => g.dlsite_domain.is_none() || dlsite_id_is_well_cut(id.as_str()),
        None => true,
    }
}

/// The main image of a game found on ErogameScape.
pub fn main_image_url(g: &EsGame) -> (r: Option<String>)
    requires
        main_image_defined(g@),
    ensures
        r.deep_view() == main_image(g@),
{
    match (&g.dmm, &g.dmm_genre, &g.dmm_genre_2) {
        (Some(dmm), Some(genre), Some(genre_2)) => {
            return Some(dmm_url(dmm.as_str(), genre.as_str(), genre_2.as_str()));
        },
        _ => {},
    }
    match (&g.dlsite_domain, &g.dlsite_id) {
        (Some(domain), Some(id)) => dlsite_url(domain.as_str(), id.as_str()),
        _ => None,
    }
}

/// The SQL that looks a folder's title up on ErogameScape: the first game
/// whose name starts with the title.
pub open spec fn game_search_sql_text(title: Seq<char>) -> Seq<char> {
    "SELECT id, brandname, gamename, gyutto_id, dmm, dmm_genre, dmm_genre_2, dlsite_id, dlsite_domain, digiket, comike FROM gamelist WHERE gamename LIKE '"@
        + title + "%' LIMIT 1"@
}

/// The lookup query holds the title verbatim, between the quote that opens
/// the `LIKE` pattern and its `%' LIMIT 1` end, and nothing else varies.
pub proof fn law_search_sql_quotes_title_verbatim(title: Seq<char>)
    ensures
        ({
            let q = game_search_sql_text(title);
            let p = "SELECT id, brandname, gamename, gyutto_id, dmm, dmm_genre, dmm_genre_2, dlsite_id, dlsite_domain, digiket, comike FROM gamelist WHERE gamename LIKE '"@;
            let e = "%' LIMIT 1"@;
            &&& q.len() == p.len() + title.len() + e.len()
            &&& q.subrange(0, p.len() as int) == p
            &&& q.subrange(p.len() as int, (p.len() + title.len()) as int) == title
            &&& q.subrange((p.len() + title.len()) as int, q.len() as int) == e
        }),
{
    let q = game_search_sql_text(title);
    let p = "SELECT id, brandname, gamename, gyutto_id, dmm, dmm_genre, dmm_genre_2, dlsite_id, dlsite_domain, digiket, comike FROM gamelist WHERE gamename LIKE '"@;
    let e = "%' LIMIT 1"@;
    assert(q.subrange(0, p.len() as int) =~= p);
    assert(q.subrange(p.len() as int, (p.len() + title.len()) as int) =~= title);
    assert(q.subrange((p.len() + title.len()) as int, q.len() as int) =~= e);
}

/// Two titles give the same lookup query only when they are the same title.
pub proof fn law_search_sql_tells_titles_apart(a: Seq<char>, b: Seq<char>)
    ensures
        game_search_sql_text(a) == game_search_sql_text(b) ==> a == b,
{
    law_search_sql_quotes_title_verbatim(a);
    law_search_sql_quotes_title_verbatim(b);
}

/// Writes the SQL that looks a folder's title up on ErogameScape.
pub fn game_search_sql(title: &str) -> (r: String)
    ensures
        r@ == game_search_sql_text(title@),
{
    let mut r = String::from_str(
        "SELECT id, brandname, gamename, gyutto_id, dmm, dmm_genre, dmm_genre_2, dlsite_id, dlsite_domain, digiket, comike FROM gamelist WHERE gamename LIKE '",
    );
    r.append(title);
    r.append("%' LIMIT 1");
    r
}

/// A game that the library holds as registered, with the folder it was found in.
#[derive(Debug)]
pub struct RegisteredGame {
    pub id: i64,
    pub folder: Option<String>,
}

/// A [`RegisteredGame`] with its folder as characters.
pub struct RegisteredGameView {
    pub id: i64,
    pub folder: Option<Seq<char>>,
}

impl View for RegisteredGame {
    type V = RegisteredGameView;

    open spec fn view(&self) -> RegisteredGameView {
        RegisteredGameView { id: self.id, folder: self.folder.deep_view() }
    }
}

/// Whether a game's folder is among the folders found by the scan; a game
/// without a folder never is.
pub open spec fn folder_scanned(folder: Option<Seq<char>>, folders: Seq<Seq<char>>) -> bool {
    match folder {
        Some(f) => folders.contains(f),
        None => false,
    }
}

/// The ids of the registered games whose folder the scan did not find, in
/// the order of `games`.
pub open spec fn unregistered_ids(games: Seq<RegisteredGameView>, folders: Seq<Seq<char>>) -> Seq<
    i64,
>
    decreases games.len(),
{
    if games.len() == 0 {
        seq![]
    } else {
        let rest = unregistered_ids(games.drop_last(), folders);
        if folder_scanned(games.last().folder, folders) {
            rest
        } else {
            rest.push(games.last().id)
        }
    }
}

/// The games taken out of the library are exactly those whose folder the
/// scan did not find: every id given belongs to such a game, and every such
/// game has its id given.
pub proof fn law_unregistered_are_the_missing_games(
    games: Seq<RegisteredGameView>,
    folders: Seq<Seq<char>>,
)
    ensures
        forall|k: int|
            0 <= k < unregistered_ids(games, folders).len() ==> exists|i: int|
                0 <= i < games.len() && games[i].id == #[trigger] unregistered_ids(games, folders)[k]
                    && !folder_scanned(games[i].folder, folders),
        forall|i: int|
            0 <= i < games.len() && !folder_scanned(#[trigger] games[i].folder, folders)
                ==> unregistered_ids(games, folders).contains(games[i].id),
    decreases games.len(),
{
    if games.len() > 0 {
        let init = games.drop_last();
        law_unregistered_are_the_missing_games(init, folders);
        let rest = unregistered_ids(init, folders);
        let r = unregistered_ids(games, folders);
        assert forall|k: int| 0 <= k < r.len() implies exists|i: int|
            0 <= i < games.len() && games[i].id == #[trigger] r[k] && !folder_scanned(
                games[i].folder,
                folders,
            ) by {
            if k < rest.len() {
                assert(r[k] == rest[k]);
                let i = choose|i: int|
                    0 <= i < init.len() && init[i].id == #[trigger] rest[k] && !folder_scanned(
                        init[i].folder,
                        folders,
                    );
                assert(games[i] == init[i]);
            } else {
                assert(games[games.len() - 1].id == r[k]);
            }
        }
        assert forall|i: int|
            0 <= i < games.len() && !folder_scanned(#[trigger] games[i].folder, folders) implies r.contains(
            games[i].id,
        ) by {
            if i < games.len() - 1 {
                assert(games[i] == init[i]);
                assert(rest.contains(games[i].id));
                let k = choose|k: int| 0 <= k < rest.len() && rest[k] == games[i].id;
                assert(r[k] == rest[k]);
            } else {
                assert(r[r.len() - 1] == games[i].id);
            }
        }
    }
}

/// A game's folder counts as scanned exactly when it is equal to one of the
/// folder paths the scan found; a game without a folder never does.
pub proof fn law_scanned_means_same_path(folder: Option<Seq<char>>, folders: Seq<Seq<char>>)
    ensures
        folder is None ==> !folder_scanned(folder, folders),
        folder matches Some(f) ==> (folder_scanned(folder, folders) <==> exists|j: int|
            0 <= j < folders.len() && #[trigger] folders[j] == f),
{
}

/// The ids taken out of the library are those of the games whose folder was
/// not found, kept in the order of the games.
pub proof fn law_unregistered_in_game_order(games: Seq<RegisteredGameView>, folders: Seq<Seq<char>>)
    ensures
        unregistered_ids(games, folders) == games.filter(
            |g: RegisteredGameView| !folder_scanned(g.folder, folders),
        ).map_values(|g: RegisteredGameView| g.id),
    decreases games.len(),
{
    let pred = |g: RegisteredGameView| !folder_scanned(g.folder, folders);
    reveal_with_fuel(Seq::<RegisteredGameView>::filter, 1);
    if games.len() > 0 {
        law_unregistered_in_game_order(games.drop_last(), folders);
        let sub = games.drop_last().filter(pred);
        if pred(games.last()) {
            assert(sub.push(games.last()).map_values(|g: RegisteredGameView| g.id) =~= sub.map_values(
                |g: RegisteredGameView| g.id,
            ).push(games.last().id));
        }
    } else {
        assert(games.filter(pred).map_values(|g: RegisteredGameView| g.id) =~= Seq::<i64>::empty());
    }
}

fn is_scanned(folder: &Option<String>, folders: &Vec<String>) -> (r: bool)
    ensures
        r == folder_scanned(folder.deep_view(), folders.deep_view()),
{
    let f = match folder {
        Some(f) => f,
        None => return false,
    };
    assert(folder.deep_view() == Some(f@));
    let mut i: usize = 0;
    while i < folders.len()
        invariant
            i <= folders.len(),
            folder.deep_view() == Some(f@),
            forall|j: int| 0 <= j < i ==> folders.deep_view()[j] != f@,
        decreases folders.len() - i,
    {
        if same_text(folders[i].as_str(), f.as_str()) {
            assert(folders.deep_view()[i as int] == f@);
            assert(folders.deep_view().contains(f@));
            return true;
        }
        i += 1;
    }
    false
}

/// The registered games to take out of the library: those whose folder is
/// not among the folders found by the scan.
pub fn ids_to_unregister(games: &Vec<RegisteredGame>, folders: &Vec<String>) -> (r: Vec<i64>)
    ensures
        r@ == unregistered_ids(games_view(games@), folders.deep_view()),
{
    let mut r: Vec<i64> = Vec::new();
    let mut i: usize = 0;
    while i < games.len()
        invariant
            i <= games.len(),
            r@ == unregistered_ids(games_view(games@).take(i as int), folders.deep_view()),
        decreases games.len() - i,
    {
        proof {
            let g = games_view(games@);
            assert(g.take(i + 1).drop_last() =~= g.take(i as int));
            assert(g.take(i + 1).last() == games[i as int]@);
        }
        if !is_scanned(&games[i].folder, folders) {
            r.push(games[i].id);
        }
        i += 1;
    }
    assert(games_view(games@).take(games.len() as int) =~= games_view(games@));
    r
}

/// The views of a list of registered games.
pub open spec fn games_view(games: Seq<RegisteredGame>) -> Seq<RegisteredGameView> {
    games.map_values(|g: RegisteredGame| g@)
}

/// What to record for a game folder found by the scan.
#[derive(Debug)]
pub enum NewGame {
    /// The folder's title matched a game on ErogameScape.
    Found { es_id: i64, name: String, main_image: Option<String>, library_registered: bool, folder: String },
    /// Nothing on ErogameScape matched; the game is recorded by its title.
    NotFound { name: String, library_registered: bool, folder: String },
}

/// A [`NewGame`] with its texts as characters.
pub enum NewGameView {
    Found { es_id: i64, name: Seq<char>, main_image: Option<Seq<char>>, library_registered: bool, folder: Seq<char> },
    NotFound { name: Seq<char>, library_registered: bool, folder: Seq<char> },
}

impl View for NewGame {
    type V = NewGameView;

    open spec fn view(&self) -> NewGameView {
        match self {
            NewGame::Found { es_id, name, main_image, library_registered, folder } => NewGameView::Found {
                es_id: *es_id,
                name: name@,
                main_image: main_image.deep_view(),
                library_registered: *library_registered,
                folder: folder@,
            },
            NewGame::NotFound { name, library_registered, folder } => NewGameView::NotFound {
                name: name@,
                library_registered: *library_registered,
                folder: folder@,
            },
        }
    }
}

/// What is recorded for a folder with title `title` at path `folder`, given
/// the games ErogameScape returned for the title: the first of them, with
/// its id and main image, or the title alone. Either way the game is
/// registered in the library.
pub open spec fn new_game(title: Seq<char>, folder: Seq<char>, found: Seq<EsGameView>) -> NewGameView {
    if found.len() > 0 {
        NewGameView::Found {
            es_id: found[0].id,
            name: title,
            main_image: main_image(found[0]),
            library_registered: true,
            folder,
        }
    } else {
        NewGameView::NotFound { name: title, library_registered: true, folder }
    }
}

/// The record of a scanned folder is always registered, named by the
/// folder's title and placed at its path; it is linked to ErogameScape
/// exactly when a game was found, and then to the first game found, with
/// that game's main image.
pub proof fn law_new_game_keeps_the_folder_title(
    title: Seq<char>,
    folder: Seq<char>,
    found: Seq<EsGameView>,
)
    ensures
        match new_game(title, folder, found) {
            NewGameView::Found { es_id, name, main_image: image, library_registered, folder: f } => {
                &&& found.len() > 0
                &&& es_id == found[0].id
                &&& name == title
                &&& image == main_image(found[0])
                &&& library_registered
                &&& f == folder
            },
            NewGameView::NotFound { name, library_registered, folder: f } => {
                &&& found.len() == 0
                &&& name == title
                &&& library_registered
                &&& f == folder
            },
        },
{
}

/// Decides what to record for a scanned folder.
pub fn plan_game_insert(title: &str, folder: &str, found: &Vec<EsGame>) -> (r: NewGame)
    requires
        found.len() > 0 ==> main_image_defined(found[0]@),
    ensures
        r@ == new_game(title@, folder@, found@.map_values(|g: EsGame| g@)),
{
    if found.len() > 0 {
        let first = &found[0];
        NewGame::Found {
            es_id: first.id,
            name: String::from_str(title),
            main_image: main_image_url(first),
            library_registered: true,
            folder: String::from_str(folder),
        }
    } else {
        NewGame::NotFound {
            name: String::from_str(title),
            library_registered: true,
            folder: String::from_str(folder),
        }
    }
}

} // verus!
