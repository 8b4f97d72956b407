//! A game (set) of a DAT: its metadata fields such as description, parent,
//! year and manufacturer.

use vstd::prelude::*;
use crate::rv_dat::is_blank;
use crate::text::{str_bytes, str_trim};
use vstd::string::StringExecFns;

verus! {

/// Metadata fields of a game.
#[derive(Debug, Clone, Copy, PartialEq, Eq, Structural, PartialOrd, Ord, Hash)]
pub enum GameData {
    Id,
    Description,
    RomOf,
    IsBios,
    Sourcefile,
    CloneOf,
    CloneOfId,
    SampleOf,
    Board,
    Year,
    Manufacturer,
    EmuArc,
    Publisher,
    Developer,
    Genre,
    SubGenre,
    Ratings,
    Score,
    Players,
    Enabled,
    CRC,
    RelatedTo,
    Source,
    Category,
}

/// One metadata field and its value.
#[derive(Debug, Clone)]
pub struct GameMetaData {
    pub id: GameData,
    pub value: String,
}

/// A game as stored in the tree.
#[derive(Debug, Clone)]
pub struct RvGame {
    pub game_meta_data: Vec<GameMetaData>,
}

/// Value of the first entry for `id`, if any.
pub open spec fn game_meta_lookup(s: Seq<GameMetaData>, id: GameData) -> Option<Seq<char>>
    decreases s.len(),
{
    if s.len() == 0 {
        None
    } else if s[0].id == id {
        Some(s[0].value@)
    } else {
        game_meta_lookup(s.drop_first(), id)
    }
}

proof fn lemma_game_lookup_prefix(s: Seq<GameMetaData>, id: GameData, i: int)
    requires
        0 <= i <= s.len(),
        forall|j: int| 0 <= j < i ==> (#[trigger] s[j]).id != id,
    ensures
        game_meta_lookup(s, id) == game_meta_lookup(s.skip(i), id),
    decreases i,
{
    if i > 0 {
        lemma_game_lookup_prefix(s.drop_first(), id, i - 1);
        assert(s.drop_first().skip(i - 1) =~= s.skip(i));
    } else {
        assert(s.skip(0) =~= s);
    }
}

proof fn lemma_game_lookup_update(s: Seq<GameMetaData>, id: GameData, i: int, m: GameMetaData)
    requires
        0 <= i < s.len(),
        forall|j: int| 0 <= j < i ==> (#[trigger] s[j]).id != id,
        s[i].id == id,
        m.id == id,
    ensures
        forall|id2: GameData| #[trigger] game_meta_lookup(s.update(i, m), id2) == (if id2 == id {
            Some(m.value@)
        } else {
            game_meta_lookup(s, id2)
        }),
    decreases i,
{
    let n = s.update(i, m);
    if i > 0 {
        lemma_game_lookup_update(s.drop_first(), id, i - 1, m);
        assert(n.drop_first() =~= s.drop_first().update(i - 1, m));
        assert(n[0] == s[0]);
        assert(s[0].id != id);
    } else {
        assert(n.drop_first() =~= s.drop_first());
        assert(n[0] == m);
    }
    assert forall|id2: GameData| #[trigger] game_meta_lookup(n, id2) == (if id2 == id {
        Some(m.value@)
    } else {
        game_meta_lookup(s, id2)
    }) by {
        if i > 0 {
            assert(game_meta_lookup(s.drop_first().update(i - 1, m), id2) == (if id2 == id {
                Some(m.value@)
            } else {
                game_meta_lookup(s.drop_first(), id2)
            }));
        }
    }
}

proof fn lemma_game_lookup_push(s: Seq<GameMetaData>, m: GameMetaData)
    requires
        game_meta_lookup(s, m.id) is None,
    ensures
        forall|id2: GameData| #[trigger] game_meta_lookup(s.push(m), id2) == (if id2 == m.id {
            Some(m.value@)
        } else {
            game_meta_lookup(s, id2)
        }),
    decreases s.len(),
{
    let n = s.push(m);
    if s.len() > 0 {
        lemma_game_lookup_push(s.drop_first(), m);
        assert(n.drop_first() =~= s.drop_first().push(m));
        assert(n[0] == s[0]);
    } else {
        assert(n.drop_first() =~= s);
        assert(n[0] == m);
    }
    assert forall|id2: GameData| #[trigger] game_meta_lookup(n, id2) == (if id2 == m.id {
        Some(m.value@)
    } else {
        game_meta_lookup(s, id2)
    }) by {
        if s.len() > 0 {
            assert(game_meta_lookup(s.drop_first().push(m), id2) == (if id2 == m.id {
                Some(m.value@)
            } else {
                game_meta_lookup(s.drop_first(), id2)
            }));
        }
    }
}

/// The entries as (field, text) pairs.
pub open spec fn game_meta_view(s: Seq<GameMetaData>) -> Seq<(GameData, Seq<char>)> {
    s.map_values(|m: GameMetaData| (m.id, m.value@))
}

/// The position of the first entry, from `i` on, for field `id`.
pub open spec fn first_game_meta(s: Seq<GameMetaData>, id: GameData, i: int) -> Option<int>
    decreases s.len() - i,
{
    if i < 0 || i >= s.len() {
        None
    } else if s[i].id == id {
        Some(i)
    } else {
        first_game_meta(s, id, i + 1)
    }
}

/// The entries after field `id` is set to `v`: the first entry for it
/// replaced in place, or a new entry appended last.
pub open spec fn game_meta_set(s: Seq<GameMetaData>, id: GameData, v: Seq<char>) -> Seq<(GameData, Seq<char>)> {
    match first_game_meta(s, id, 0) {
        Some(k) => game_meta_view(s).update(k, (id, v)),
        None => game_meta_view(s).push((id, v)),
    }
}

fn find_game_meta(s: &Vec<GameMetaData>, id: GameData) -> (res: Option<usize>)
    ensures
        match res {
            Some(i) => first_game_meta(s@, id, 0) == Some(i as int),
            None => first_game_meta(s@, id, 0) is None,
        },
        res is None ==> game_meta_lookup(s@, id) is None,
        res matches Some(i) ==> i < s@.len() && s@[i as int].id == id && (forall|j: int|
            0 <= j < i ==> (#[trigger] s@[j]).id != id) && game_meta_lookup(s@, id) == Some(
            s@[i as int].value@,
        ),
{
    let mut i: usize = 0;
    while i < s.len()
        invariant
            i <= s@.len(),
            first_game_meta(s@, id, 0) == first_game_meta(s@, id, i as int),
            forall|j: int| 0 <= j < i ==> (#[trigger] s@[j]).id != id,
        decreases s@.len() - i,
    {
        if s[i].id == id {
            proof {
                lemma_game_lookup_prefix(s@, id, i as int);
            }
            return Some(i);
        }
        i = i + 1;
    }
    proof {
        lemma_game_lookup_prefix(s@, id, i as int);
    }
    None
}

fn is_blank_text(s: &str) -> (res: bool)
    ensures
        res == is_blank(s@),
{
    str_bytes(str_trim(s)).len() == 0
}

/// `after` holds `before` with field `id` set to `v`.
pub open spec fn game_set(before: Seq<GameMetaData>, after: Seq<GameMetaData>, id: GameData, v: Seq<char>) -> bool {
    &&& forall|id2: GameData| #[trigger] game_meta_lookup(after, id2) == (if id2 == id {
        Some(v)
    } else {
        game_meta_lookup(before, id2)
    })
    &&& after.len() == before.len() + (if game_meta_lookup(before, id) is Some {
        0int
    } else {
        1int
    })
}


/// A game as a DAT file describes it.
#[derive(Debug, Clone)]
pub struct DatGame {
    pub id: Option<String>,
    pub description: Option<String>,
    pub category: Vec<String>,
    pub rom_of: Option<String>,
    pub is_bios: Option<String>,
    pub source_file: Option<String>,
    pub clone_of: Option<String>,
    pub clone_of_id: Option<String>,
    pub sample_of: Option<String>,
    pub board: Option<String>,
    pub year: Option<String>,
    pub manufacturer: Option<String>,
    pub is_emu_arc: bool,
    pub publisher: Option<String>,
    pub developer: Option<String>,
    pub genre: Option<String>,
    pub sub_genre: Option<String>,
    pub ratings: Option<String>,
    pub score: Option<String>,
    pub players: Option<String>,
    pub enabled: Option<String>,
    pub crc: Option<String>,
    pub related_to: Option<String>,
    pub source: Option<String>,
}

/// A value that is present and not blank.
pub open spec fn present(o: Option<String>) -> Option<Seq<char>> {
    match o {
        Some(s) => if is_blank(s@) {
            None
        } else {
            Some(s@)
        },
        None => None,
    }
}

/// Texts joined with a separator between them.
pub open spec fn joined(parts: Seq<String>, sep: Seq<char>) -> Seq<char>
    decreases parts.len(),
{
    if parts.len() == 0 {
        Seq::empty()
    } else if parts.len() == 1 {
        parts[0]@
    } else {
        joined(parts.drop_last(), sep) + sep + parts.last()@
    }
}

/// The categories of a game joined with " | ", when it has any.
pub open spec fn category_text(d: DatGame) -> Option<Seq<char>> {
    if d.category@.len() == 0 {
        None
    } else if is_blank(joined(d.category@, " | "@)) {
        None
    } else {
        Some(joined(d.category@, " | "@))
    }
}

/// A game field that applies only to emulator arcade DATs.
pub open spec fn emu_only(d: DatGame, o: Option<String>) -> Option<Seq<char>> {
    if d.is_emu_arc {
        present(o)
    } else {
        None
    }
}

/// The value a game built from a DAT game has in each field: the DAT's
/// value when present and not blank; the categories joined; "yes" for the
/// emulator arcade flag; the emulator arcade fields only for such DATs.
pub open spec fn dat_game_field(d: DatGame, id: GameData) -> Option<Seq<char>> {
    match id {
        GameData::Id => present(d.id),
        GameData::Description => present(d.description),
        GameData::Category => category_text(d),
        GameData::RomOf => present(d.rom_of),
        GameData::IsBios => present(d.is_bios),
        GameData::Sourcefile => present(d.source_file),
        GameData::CloneOf => present(d.clone_of),
        GameData::CloneOfId => present(d.clone_of_id),
        GameData::SampleOf => present(d.sample_of),
        GameData::Board => present(d.board),
        GameData::Year => present(d.year),
        GameData::Manufacturer => present(d.manufacturer),
        GameData::EmuArc => if d.is_emu_arc {
            Some("yes"@)
        } else {
            None
        },
        GameData::Publisher => emu_only(d, d.publisher),
        GameData::Developer => emu_only(d, d.developer),
        GameData::Genre => emu_only(d, d.genre),
        GameData::SubGenre => emu_only(d, d.sub_genre),
        GameData::Ratings => emu_only(d, d.ratings),
        GameData::Score => emu_only(d, d.score),
        GameData::Players => emu_only(d, d.players),
        GameData::Enabled => emu_only(d, d.enabled),
        GameData::CRC => emu_only(d, d.crc),
        GameData::RelatedTo => emu_only(d, d.related_to),
        GameData::Source => emu_only(d, d.source),
    }
}

/// The position of each field in the order the fields are set.
pub open spec fn field_rank(id: GameData) -> int {
    match id {
        GameData::Id => 0,
        GameData::Description => 1,
        GameData::Category => 2,
        GameData::RomOf => 3,
        GameData::IsBios => 4,
        GameData::Sourcefile => 5,
        GameData::CloneOf => 6,
        GameData::CloneOfId => 7,
        GameData::SampleOf => 8,
        GameData::Board => 9,
        GameData::Year => 10,
        GameData::Manufacturer => 11,
        GameData::EmuArc => 12,
        GameData::Publisher => 13,
        GameData::Developer => 14,
        GameData::Genre => 15,
        GameData::SubGenre => 16,
        GameData::Ratings => 17,
        GameData::Score => 18,
        GameData::Players => 19,
        GameData::Enabled => 20,
        GameData::CRC => 21,
        GameData::RelatedTo => 22,
        GameData::Source => 23,
    }
}

/// The fields set so far, after the first `k` in order.
pub open spec fn fields_upto(d: DatGame, id: GameData, k: int) -> Option<Seq<char>> {
    if field_rank(id) < k {
        dat_game_field(d, id)
    } else {
        None
    }
}

proof fn lemma_field_step(
    before: Seq<GameMetaData>,
    after: Seq<GameMetaData>,
    d: DatGame,
    id: GameData,
    v: Option<Seq<char>>,
)
    requires
        v == dat_game_field(d, id),
        forall|id2: GameData| #[trigger] game_meta_lookup(before, id2) == fields_upto(d, id2, field_rank(id)),
        v is None ==> after == before,
        v matches Some(x) ==> game_set(before, after, id, x),
    ensures
        forall|id2: GameData| #[trigger] game_meta_lookup(after, id2) == fields_upto(d, id2, field_rank(id) + 1),
{
    assert forall|id2: GameData| #[trigger] game_meta_lookup(after, id2) == fields_upto(d, id2, field_rank(id) + 1) by {
        if id2 != id {
            assert(field_rank(id2) != field_rank(id));
            assert(game_meta_lookup(after, id2) == game_meta_lookup(before, id2));
        } else {
            assert(game_meta_lookup(before, id) == fields_upto(d, id, field_rank(id)));
        }
    }
}

fn join_categories(parts: &Vec<String>) -> (r: String)
    ensures
        r@ == joined(parts@, " | "@),
{
    let mut out = String::new();
    let mut i: usize = 0;
    proof {
        reveal_strlit(" | ");
    }
    while i < parts.len()
        invariant
            i <= parts@.len(),
            out@ == joined(parts@.subrange(0, i as int), " | "@),
        decreases parts@.len() - i,
    {
        let ghost pre = parts@.subrange(0, i as int);
        let ghost pre2 = parts@.subrange(0, i + 1);
        assert(pre2.drop_last() =~= pre);
        if i > 0 {
            out = out.concat(" | ");
        } else {
            assert(pre =~= Seq::<String>::empty());
        }
        out = out.concat(parts[i].as_str());
        i = i + 1;
    }
    assert(parts@.subrange(0, parts@.len() as int) =~= parts@);
    out
}

impl RvGame {
    /// A game without metadata.
    pub fn new() -> (r: Self)
        ensures
            r.game_meta_data@.len() == 0,
    {
        RvGame { game_meta_data: Vec::new() }
    }

    /// A game whose only field is its description.
    pub fn from_description(description: &str) -> (r: Self)
        ensures
            r.game_meta_data@.len() == 1,
            forall|id: GameData| #[trigger] game_meta_lookup(r.game_meta_data@, id) == (if id
                == GameData::Description {
                Some(description@)
            } else {
                None
            }),
    {
        let mut game = Self::new();
        game.add_data(GameData::Description, description);
        game
    }

    /// Builds a game from a DAT game: each field that is present and not
    /// blank is set, the categories joined with " | "; an emulator arcade
    /// game also gets the "yes" flag and its emulator fields.
    pub fn from_dat_game(d_game: &DatGame) -> (r: Self)
        ensures
            forall|id: GameData| #[trigger] game_meta_lookup(r.game_meta_data@, id) == dat_game_field(*d_game, id),
    {
        let ghost d = *d_game;
        let mut game = Self::new();
        let ghost g0 = game.game_meta_data@;
        assert forall|id2: GameData| #[trigger] game_meta_lookup(g0, id2) == fields_upto(d, id2, 0) by {}
        let ghost b = game.game_meta_data@;
        game.check_attribute(&d_game.id, GameData::Id);
        proof { lemma_field_step(b, game.game_meta_data@, d, GameData::Id, present(d.id)); }
        let ghost b = game.game_meta_data@;
        game.check_attribute(&d_game.description, GameData::Description);
        proof { lemma_field_step(b, game.game_meta_data@, d, GameData::Description, present(d.description)); }
        let category = if d_game.category.len() == 0 {
            None
        } else {
            Some(join_categories(&d_game.category))
        };
        let ghost b = game.game_meta_data@;
        game.check_attribute(&category, GameData::Category);
        proof { lemma_field_step(b, game.game_meta_data@, d, GameData::Category, present(category)); }
        let ghost b = game.game_meta_data@;
        game.check_attribute(&d_game.rom_of, GameData::RomOf);
        proof { lemma_field_step(b, game.game_meta_data@, d, GameData::RomOf, present(d.rom_of)); }
        let ghost b = game.game_meta_data@;
        game.check_attribute(&d_game.is_bios, GameData::IsBios);
        proof { lemma_field_step(b, game.game_meta_data@, d, GameData::IsBios, present(d.is_bios)); }
        let ghost b = game.game_meta_data@;
        game.check_attribute(&d_game.source_file, GameData::Sourcefile);
        proof { lemma_field_step(b, game.game_meta_data@, d, GameData::Sourcefile, present(d.source_file)); }
        let ghost b = game.game_meta_data@;
        game.check_attribute(&d_game.clone_of, GameData::CloneOf);
        proof { lemma_field_step(b, game.game_meta_data@, d, GameData::CloneOf, present(d.clone_of)); }
        let ghost b = game.game_meta_data@;
        game.check_attribute(&d_game.clone_of_id, GameData::CloneOfId);
        proof { lemma_field_step(b, game.game_meta_data@, d, GameData::CloneOfId, present(d.clone_of_id)); }
        let ghost b = game.game_meta_data@;
        game.check_attribute(&d_game.sample_of, GameData::SampleOf);
        proof { lemma_field_step(b, game.game_meta_data@, d, GameData::SampleOf, present(d.sample_of)); }
        let ghost b = game.game_meta_data@;
        game.check_attribute(&d_game.board, GameData::Board);
        proof { lemma_field_step(b, game.game_meta_data@, d, GameData::Board, present(d.board)); }
        let ghost b = game.game_meta_data@;
        game.check_attribute(&d_game.year, GameData::Year);
        proof { lemma_field_step(b, game.game_meta_data@, d, GameData::Year, present(d.year)); }
        let ghost b = game.game_meta_data@;
        game.check_attribute(&d_game.manufacturer, GameData::Manufacturer);
        proof { lemma_field_step(b, game.game_meta_data@, d, GameData::Manufacturer, present(d.manufacturer)); }
        if d_game.is_emu_arc {
            let ghost b = game.game_meta_data@;
            game.add_data(GameData::EmuArc, "yes");
            proof {
                reveal_strlit("yes");
                lemma_field_step(b, game.game_meta_data@, d, GameData::EmuArc, Some("yes"@));
            }
            let ghost b = game.game_meta_data@;
            game.check_attribute(&d_game.publisher, GameData::Publisher);
            proof { lemma_field_step(b, game.game_meta_data@, d, GameData::Publisher, present(d.publisher)); }
            let ghost b = game.game_meta_data@;
            game.check_attribute(&d_game.developer, GameData::Developer);
            proof { lemma_field_step(b, game.game_meta_data@, d, GameData::Developer, present(d.developer)); }
            let ghost b = game.game_meta_data@;
            game.check_attribute(&d_game.genre, GameData::Genre);
            proof { lemma_field_step(b, game.game_meta_data@, d, GameData::Genre, present(d.genre)); }
            let ghost b = game.game_meta_data@;
            game.check_attribute(&d_game.sub_genre, GameData::SubGenre);
            proof { lemma_field_step(b, game.game_meta_data@, d, GameData::SubGenre, present(d.sub_genre)); }
            let ghost b = game.game_meta_data@;
            game.check_attribute(&d_game.ratings, GameData::Ratings);
            proof { lemma_field_step(b, game.game_meta_data@, d, GameData::Ratings, present(d.ratings)); }
            let ghost b = game.game_meta_data@;
            game.check_attribute(&d_game.score, GameData::Score);
            proof { lemma_field_step(b, game.game_meta_data@, d, GameData::Score, present(d.score)); }
            let ghost b = game.game_meta_data@;
            game.check_attribute(&d_game.players, GameData::Players);
            proof { lemma_field_step(b, game.game_meta_data@, d, GameData::Players, present(d.players)); }
            let ghost b = game.game_meta_data@;
            game.check_attribute(&d_game.enabled, GameData::Enabled);
            proof { lemma_field_step(b, game.game_meta_data@, d, GameData::Enabled, present(d.enabled)); }
            let ghost b = game.game_meta_data@;
            game.check_attribute(&d_game.crc, GameData::CRC);
            proof { lemma_field_step(b, game.game_meta_data@, d, GameData::CRC, present(d.crc)); }
            let ghost b = game.game_meta_data@;
            game.check_attribute(&d_game.related_to, GameData::RelatedTo);
            proof { lemma_field_step(b, game.game_meta_data@, d, GameData::RelatedTo, present(d.related_to)); }
            let ghost b = game.game_meta_data@;
            game.check_attribute(&d_game.source, GameData::Source);
            proof { lemma_field_step(b, game.game_meta_data@, d, GameData::Source, present(d.source)); }
        } else {
            assert forall|id2: GameData| #[trigger] game_meta_lookup(game.game_meta_data@, id2) == fields_upto(d, id2, 24) by {
                assert(fields_upto(d, id2, 12) == fields_upto(d, id2, 24));
            }
        }
        assert forall|id2: GameData| #[trigger] game_meta_lookup(game.game_meta_data@, id2) == dat_game_field(d, id2) by {
            assert(field_rank(id2) < 24);
        }
        game
    }

    /// Sets field `g_param` to `source` when `source` is present and not blank.
    fn check_attribute(&mut self, source: &Option<String>, g_param: GameData)
        ensures
            (source is None || is_blank(source.unwrap()@)) ==> final(self).game_meta_data@ == old(
                self,
            ).game_meta_data@,
            source is Some && !is_blank(source.unwrap()@) ==> game_set(
                old(self).game_meta_data@,
                final(self).game_meta_data@,
                g_param,
                source.unwrap()@,
            ),
    {
        if let Some(s) = source {
            if !is_blank_text(s.as_str()) {
                self.add_data(g_param, s.as_str());
            }
        }
    }

    /// Sets field `id` to `value`, replacing an earlier value.
    pub fn add_data(&mut self, id: GameData, value: &str)
        ensures
            game_set(old(self).game_meta_data@, final(self).game_meta_data@, id, value@),
            game_meta_view(final(self).game_meta_data@) == game_meta_set(old(self).game_meta_data@, id, value@),
    {
        let ghost old_s = self.game_meta_data@;
        match find_game_meta(&self.game_meta_data, id) {
            Some(i) => {
                let mut entry = GameMetaData { id, value: value.to_owned() };
                self.game_meta_data.set_and_swap(i, &mut entry);
                proof {
                    lemma_game_lookup_update(old_s, id, i as int, self.game_meta_data@[i as int]);
                    assert(game_meta_view(self.game_meta_data@) =~= game_meta_view(old_s).update(i as int, (id, value@)));
                }
            },
            None => {
                self.game_meta_data.push(GameMetaData { id, value: value.to_owned() });
                proof {
                    lemma_game_lookup_push(old_s, self.game_meta_data@.last());
                    assert(game_meta_view(self.game_meta_data@) =~= game_meta_view(old_s).push((id, value@)));
                }
            },
        }
    }

    /// Value of field `id`, if set.
    pub fn get_data(&self, id: GameData) -> (res: Option<String>)
        ensures
            match res {
                Some(v) => game_meta_lookup(self.game_meta_data@, id) == Some(v@),
                None => game_meta_lookup(self.game_meta_data@, id) is None,
            },
    {
        match find_game_meta(&self.game_meta_data, id) {
            Some(i) => Some(self.game_meta_data[i].value.clone()),
            None => None,
        }
    }
}

/// After a field is set, reading it gives the value back, and reading any other
/// field gives what it gave before.
pub proof fn law_game_set_then_get(
    before: Seq<GameMetaData>,
    after: Seq<GameMetaData>,
    id: GameData,
    v: Seq<char>,
    other: GameData,
)
    requires
        game_set(before, after, id, v),
        other != id,
    ensures
        game_meta_lookup(after, id) == Some(v),
        game_meta_lookup(after, other) == game_meta_lookup(before, other),
{
}

} // verus!
