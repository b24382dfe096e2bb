//! The catalog: what is known of each kind of piece.

use vstd::prelude::*;
use vstd::std_specs::cmp::PartialEqSpecImpl;
use vstd::string::StringExecFns;
use crate::movement::{trees, MoveTree, MovementType};

verus! {

/// A kind of piece as a mathematical value.
pub struct PieceView {
    pub id: Seq<char>,
    pub alias: Seq<Seq<char>>,
    /// Which alias shows the white piece, counted from 1; 0 for the id.
    pub display_white: nat,
    /// Which alias shows the black piece, counted from 1; 0 for the id.
    pub display_black: nat,
    pub desc: Seq<char>,
    /// One movement tree for each leg of a turn.
    pub movement_type: Seq<MoveTree>,
}

impl PieceView {
    /// The name under which the piece is shown, for a display number:
    /// that alias, or the id where there is no such alias.
    pub open spec fn shown(self, display: nat) -> Seq<char> {
        if display == 0 || self.alias.len() < display {
            self.id
        } else {
            self.alias[display - 1]
        }
    }

    /// Whether `name` is the id of the piece or one of its aliases.
    pub open spec fn answers_to(self, name: Seq<char>) -> bool {
        self.id == name || self.alias.contains(name)
    }

    /// Equality of pieces: all but the movement.
    pub open spec fn same_piece(self, other: PieceView) -> bool {
        &&& self.id == other.id
        &&& self.alias == other.alias
        &&& self.display_black == other.display_black
        &&& self.display_white == other.display_white
        &&& self.desc == other.desc
    }
}

/// The strings of a list as sequences of characters.
pub open spec fn strings(list: Seq<String>) -> Seq<Seq<char>> {
    Seq::new(list.len(), |i: int| list[i]@)
}

/// The parts one after another, with `sep` between each two.
pub open spec fn joined(parts: Seq<Seq<char>>, sep: Seq<char>) -> Seq<char>
    decreases parts.len(),
{
    if parts.len() == 0 {
        Seq::empty()
    } else if parts.len() == 1 {
        parts[0]
    } else {
        joined(parts.drop_last(), sep) + sep + parts.last()
    }
}

/// A kind of piece: its names, its description and how it moves. It is
/// made by a [`PieceBuilder`] and does not change.
#[derive(Debug)]
pub struct Piece {
    id: String,
    alias: Vec<String>,
    display_white: usize,
    display_black: usize,
    desc: String,
    movement_type: Vec<MovementType>,
}

impl View for Piece {
    type V = PieceView;

    closed spec fn view(&self) -> PieceView {
        PieceView {
            id: self.id@,
            alias: strings(self.alias@),
            display_white: self.display_white as nat,
            display_black: self.display_black as nat,
            desc: self.desc@,
            movement_type: trees(self.movement_type@),
        }
    }
}

/// Whether two lists hold the same strings in the same order.
fn same_strings(a: &Vec<String>, b: &Vec<String>) -> (r: bool)
    ensures
        r == (strings(a@) == strings(b@)),
{
    if a.len() != b.len() {
        return false;
    }
    let mut i: usize = 0;
    while i < a.len()
        invariant
            i <= a.len(),
            a.len() == b.len(),
            forall|j: int| 0 <= j < i ==> (#[trigger] a[j])@ == b[j]@,
        decreases a.len() - i,
    {
        if a[i] != b[i] {
            assert(strings(a@)[i as int] != strings(b@)[i as int]);
            return false;
        }
        i += 1;
    }
    assert(strings(a@) =~= strings(b@));
    true
}

/// A copy of a list of strings.
fn copy_strings(list: &Vec<String>) -> (copy: Vec<String>)
    ensures
        strings(copy@) == strings(list@),
{
    let mut copy: Vec<String> = Vec::new();
    let mut i: usize = 0;
    while i < list.len()
        invariant
            i <= list.len(),
            copy.len() == i,
            forall|j: int| 0 <= j < i ==> (#[trigger] copy[j])@ == list[j]@,
        decreases list.len() - i,
    {
        copy.push(list[i].clone());
        i += 1;
    }
    assert(strings(copy@) =~= strings(list@));
    copy
}

/// A copy of a list of movement trees.
fn copy_trees(list: &Vec<MovementType>) -> (copy: Vec<MovementType>)
    ensures
        trees(copy@) == trees(list@),
{
    let mut copy: Vec<MovementType> = Vec::new();
    let mut i: usize = 0;
    while i < list.len()
        invariant
            i <= list.len(),
            copy.len() == i,
            forall|j: int| 0 <= j < i ==> (#[trigger] copy[j])@ == list[j]@,
        decreases list.len() - i,
    {
        copy.push(list[i].clone());
        i += 1;
    }
    assert(trees(copy@) =~= trees(list@));
    copy
}

impl Piece {
    /// The id under which the catalog holds the piece.
    pub fn id(&self) -> (id: &str)
        ensures
            id@ == self@.id,
    {
        self.id.as_str()
    }

    /// Whether `id` is the id of the piece.
    pub fn has_id(&self, id: &str) -> (r: bool)
        ensures
            r == (self@.id == id@),
    {
        self.id == id.to_string()
    }

    /// All aliases in one line.
    pub fn alias(&self) -> (line: String)
        ensures
            line@ == joined(self@.alias, "; "@),
    {
        let ghost parts = strings(self.alias@);
        let mut line = String::new();
        let mut i: usize = 0;
        while i < self.alias.len()
            invariant
                i <= self.alias.len(),
                parts == strings(self.alias@),
                line@ == joined(parts.take(i as int), "; "@),
            decreases self.alias.len() - i,
        {
            if i > 0 {
                line.append("; ");
            }
            line.append(self.alias[i].as_str());
            proof {
                let next = parts.take(i + 1);
                assert(next.drop_last() =~= parts.take(i as int));
                assert(next.last() == self.alias[i as int]@);
                if i == 0 {
                    assert(line@ =~= next[0]);
                }
            }
            i += 1;
        }
        assert(parts.take(i as int) =~= parts);
        line
    }

    /// The aliases, in the order in which they were added.
    pub fn alias_list(&self) -> (list: &Vec<String>)
        ensures
            strings(list@) == self@.alias,
    {
        &self.alias
    }

    /// The name under which the white piece is shown.
    pub fn display_white(&self) -> (name: &str)
        ensures
            name@ == self@.shown(self@.display_white),
    {
        if self.display_white == 0 || self.alias.len() < self.display_white {
            self.id.as_str()
        } else {
            self.alias[self.display_white - 1].as_str()
        }
    }

    /// The name under which the black piece is shown.
    pub fn display_black(&self) -> (name: &str)
        ensures
            name@ == self@.shown(self@.display_black),
    {
        if self.display_black == 0 || self.alias.len() < self.display_black {
            self.id.as_str()
        } else {
            self.alias[self.display_black - 1].as_str()
        }
    }

    /// The description, line after line.
    pub fn desc(&self) -> (desc: &str)
        ensures
            desc@ == self@.desc,
    {
        self.desc.as_str()
    }

    /// Whether `alias` is among the aliases of the piece.
    pub fn has_alias(&self, alias: &str) -> (r: bool)
        ensures
            r == self@.alias.contains(alias@),
    {
        let wanted = alias.to_string();
        let mut i: usize = 0;
        while i < self.alias.len()
            invariant
                i <= self.alias.len(),
                wanted@ == alias@,
                forall|j: int| 0 <= j < i ==> (#[trigger] self.alias[j])@ != alias@,
            decreases self.alias.len() - i,
        {
            if self.alias[i] == wanted {
                assert(strings(self.alias@)[i as int] == alias@);
                return true;
            }
            i += 1;
        }
        assert forall|j: int| 0 <= j < strings(self.alias@).len() implies strings(self.alias@)[j]
            != alias@ by {
            assert(strings(self.alias@)[j] == self.alias[j]@);
        }
        false
    }

    /// The movement trees of the piece, one for each leg of its turn.
    pub fn movement_type(&self) -> (legs: &Vec<MovementType>)
        ensures
            trees(legs@) == self@.movement_type,
    {
        &self.movement_type
    }
}

impl Clone for Piece {
    fn clone(&self) -> (copy: Piece)
        ensures
            copy@ == self@,
    {
        Piece {
            id: self.id.clone(),
            alias: copy_strings(&self.alias),
            display_white: self.display_white,
            display_black: self.display_black,
            desc: self.desc.clone(),
            movement_type: copy_trees(&self.movement_type),
        }
    }
}

impl PartialEq for Piece {
    /// Two pieces are equal when they agree in all but their movement.
    fn eq(&self, other: &Piece) -> (r: bool) {
        self.id == other.id && same_strings(&self.alias, &other.alias) && self.display_black
            == other.display_black && self.display_white == other.display_white && self.desc
            == other.desc
    }
}

/// `==` on pieces leaves their movement out.
impl PartialEqSpecImpl for Piece {
    open spec fn obeys_eq_spec() -> bool {
        true
    }

    open spec fn eq_spec(&self, other: &Piece) -> bool {
        self@.same_piece(other@)
    }
}

/// Assembles a [`Piece`] step by step.
pub struct PieceBuilder {
    piece_id: String,
    piece_alias: Vec<String>,
    piece_desc: String,
    piece_display_white: usize,
    piece_display_black: usize,
    piece_movement_type: Vec<MovementType>,
}

impl View for PieceBuilder {
    type V = PieceView;

    /// The piece that `build` would give.
    closed spec fn view(&self) -> PieceView {
        PieceView {
            id: self.piece_id@,
            alias: strings(self.piece_alias@),
            display_white: self.piece_display_white as nat,
            display_black: self.piece_display_black as nat,
            desc: self.piece_desc@,
            movement_type: trees(self.piece_movement_type@),
        }
    }
}

/// `std::time::SystemTimeError`, taken as it is.
#[verifier::external_type_specification]
#[verifier::external_body]
pub struct ExSystemTimeError(std::time::SystemTimeError);

/// The time since the start of 1970, as `std::time::SystemTime::elapsed`
/// gives it on `UNIX_EPOCH`; an error where the clock stands before that. It
/// is a reading of the clock, so nothing is claimed of it.
#[verifier::external_body]
fn since_epoch() -> (elapsed: Result<std::time::Duration, std::time::SystemTimeError>) {
    std::time::UNIX_EPOCH.elapsed()
}

/// The whole milliseconds of a span of time, by `Duration::as_millis`.
/// Nothing is claimed of the number: only its digits are used.
#[verifier::external_body]
fn whole_millis(elapsed: &std::time::Duration) -> (millis: u128) {
    elapsed.as_millis()
}

impl Default for PieceBuilder {
    /// A piece that stays where it is, with no alias and no description. Its
    /// id is the time of the call in milliseconds, `0` where the clock gives
    /// none, so that pieces made apart get ids apart.
    fn default() -> (builder: PieceBuilder)
        ensures
            builder@.alias == Seq::<Seq<char>>::empty(),
            builder@.desc == Seq::<char>::empty(),
            builder@.display_white == 0,
            builder@.display_black == 0,
            builder@.movement_type == seq![MoveTree::Stay],
    {
        let millis: u128 = match since_epoch() {
            Ok(elapsed) => whole_millis(&elapsed),
            Err(_) => 0,
        };
        let mut movement: Vec<MovementType> = Vec::new();
        movement.push(MovementType::Stay);
        let builder = PieceBuilder {
            piece_id: millis.to_string(),
            piece_alias: Vec::new(),
            piece_desc: String::new(),
            piece_display_white: 0,
            piece_display_black: 0,
            piece_movement_type: movement,
        };
        assert(builder@.alias =~= Seq::<Seq<char>>::empty());
        assert(builder@.movement_type =~= seq![MoveTree::Stay]);
        builder
    }
}

impl PieceBuilder {
    /// As `default`.
    pub fn new() -> (builder: PieceBuilder)
        ensures
            builder@.alias == Seq::<Seq<char>>::empty(),
            builder@.desc == Seq::<char>::empty(),
            builder@.display_white == 0,
            builder@.display_black == 0,
            builder@.movement_type == seq![MoveTree::Stay],
    {
        Self::default()
    }

    /// Sets the id; a later call replaces an earlier one.
    pub fn id(self, id: &str) -> (builder: PieceBuilder)
        ensures
            builder@ == (PieceView { id: id@, ..self@ }),
    {
        let mut builder = self;
        builder.piece_id = id.to_string();
        builder
    }

    /// Adds an alias after those already there.
    pub fn alias(self, alias: &str) -> (builder: PieceBuilder)
        ensures
            builder@ == (PieceView { alias: self@.alias.push(alias@), ..self@ }),
    {
        let mut builder = self;
        builder.piece_alias.push(alias.to_string());
        assert(builder@.alias =~= self@.alias.push(alias@));
        builder
    }

    /// Adds `id` as an alias and shows the white piece under it.
    pub fn display_white(self, id: &str) -> (builder: PieceBuilder)
        ensures
            builder@ == (PieceView {
                alias: self@.alias.push(id@),
                display_white: self@.alias.len() + 1,
                ..self@
            }),
    {
        let mut builder = self;
        builder.piece_alias.push(id.to_string());
        builder.piece_display_white = builder.piece_alias.len();
        assert(builder@.alias =~= self@.alias.push(id@));
        builder
    }

    /// Adds `id` as an alias and shows the black piece under it.
    pub fn display_black(self, id: &str) -> (builder: PieceBuilder)
        ensures
            builder@ == (PieceView {
                alias: self@.alias.push(id@),
                display_black: self@.alias.len() + 1,
                ..self@
            }),
    {
        let mut builder = self;
        builder.piece_alias.push(id.to_string());
        builder.piece_display_black = builder.piece_alias.len();
        assert(builder@.alias =~= self@.alias.push(id@));
        builder
    }

    /// Adds a line to the description.
    pub fn desc(self, desc: &str) -> (builder: PieceBuilder)
        ensures
            builder@ == (PieceView {
                desc: if self@.desc.len() == 0 {
                    desc@
                } else {
                    self@.desc + seq!['\n'] + desc@
                },
                ..self@
            }),
    {
        let mut builder = self;
        if !builder.piece_desc.as_str().is_empty() {
            proof {
                reveal_strlit("\n");
            }
            builder.piece_desc.append("\n");
            assert(builder.piece_desc@ =~= self@.desc + seq!['\n']);
        }
        builder.piece_desc.append(desc);
        assert(self@.desc.len() == 0 ==> builder.piece_desc@ =~= desc@);
        builder
    }

    /// Sets the movement trees, one for each leg of a turn, in place of those
    /// set before.
    pub fn movement(self, movement_type: Vec<MovementType>) -> (builder: PieceBuilder)
        ensures
            builder@ == (PieceView { movement_type: trees(movement_type@), ..self@ }),
    {
        let mut builder = self;
        builder.piece_movement_type = movement_type;
        builder
    }

    /// The piece as assembled.
    pub fn build(self) -> (piece: Piece)
        ensures
            piece@ == self@,
    {
        Piece {
            id: self.piece_id,
            alias: self.piece_alias,
            desc: self.piece_desc,
            display_black: self.piece_display_black,
            display_white: self.piece_display_white,
            movement_type: self.piece_movement_type,
        }
    }
}

} // verus!
