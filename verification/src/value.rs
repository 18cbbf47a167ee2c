//! The common domain model that every dialect's parse converges on:
//! players, metadata, starting position and the ordered move stream.

use vstd::prelude::*;

verus! {

/// Side of the board: Black moves first.
#[derive(Debug, Clone, Copy, PartialEq, Eq, Structural)]
pub enum Color {
    Black,
    White,
}

/// Piece kinds, promoted forms included; `All` is the wildcard that only
/// handicap removal lists may carry.
#[derive(Debug, Clone, Copy, PartialEq, Eq, Structural)]
pub enum PieceType {
    Pawn,
    Lance,
    Knight,
    Silver,
    Gold,
    Bishop,
    Rook,
    King,
    ProPawn,
    ProLance,
    ProKnight,
    ProSilver,
    Horse,
    Dragon,
    All,
}

/// A board coordinate; `(0, 0)` is the sentinel origin of a drop move and
/// never a real cell.
#[derive(Debug, Clone, Copy, PartialEq, Eq, Structural)]
pub struct Square {
    pub file: u8,
    pub rank: u8,
}

impl Square {
    /// A square lies on the wire as two decimal digits, so both parts stay
    /// below ten.
    pub open spec fn wf(self) -> bool {
        self.file <= 9 && self.rank <= 9
    }

    pub fn new(file: u8, rank: u8) -> (r: Square)
        ensures
            r.file == file,
            r.rank == rank,
    {
        Square { file, rank }
    }
}

/// A span of game-clock time, split so that no input can overflow it.
#[derive(Debug, Clone, Copy, PartialEq, Eq, Structural)]
pub struct Duration {
    pub secs: u64,
    pub millis: u32,
}

impl Duration {
    pub open spec fn wf(self) -> bool {
        self.millis < 1000
    }

    /// Total length in milliseconds.
    pub open spec fn as_millis(self) -> int {
        self.secs * 1000 + self.millis
    }

    pub fn from_secs(secs: u64) -> (r: Duration)
        ensures
            r == (Duration { secs, millis: 0u32 }),
            r.wf(),
    {
        Duration { secs, millis: 0 }
    }

    pub fn from_millis(ms: u64) -> (r: Duration)
        ensures
            r.secs == ms / 1000,
            r.millis == ms % 1000,
            r.wf(),
            r.as_millis() == ms,
    {
        Duration { secs: ms / 1000, millis: (ms % 1000) as u32 }
    }
}

/// A calendar date; `wf` is the proleptic Gregorian validity rule within the
/// range that the temporal backend accepts.
#[derive(Debug, Clone, Copy, PartialEq, Eq, Structural)]
pub struct Date {
    pub year: i32,
    pub month: u8,
    pub day: u8,
}

/// Whether `year` is a leap year of the proleptic Gregorian calendar.
pub open spec fn is_leap_year(year: int) -> bool {
    year % 4 == 0 && (year % 100 != 0 || year % 400 == 0)
}

/// How many days the given month of the given year has.
pub open spec fn days_in_month(year: int, month: int) -> int {
    if month == 2 {
        if is_leap_year(year) {
            29
        } else {
            28
        }
    } else if month == 4 || month == 6 || month == 9 || month == 11 {
        30
    } else {
        31
    }
}

/// The dates a record may carry: the backend's supported year range with a
/// valid month and day-of-month.
pub open spec fn valid_ymd(year: int, month: int, day: int) -> bool {
    &&& -9999 <= year <= 9999
    &&& 1 <= month <= 12
    &&& 1 <= day <= days_in_month(year, month)
}

impl Date {
    pub open spec fn wf(self) -> bool {
        valid_ymd(self.year as int, self.month as int, self.day as int)
    }
}

/// A clock time of day.
#[derive(Debug, Clone, Copy, PartialEq, Eq, Structural)]
pub struct TimeOfDay {
    pub hour: u8,
    pub minute: u8,
    pub second: u8,
}

impl TimeOfDay {
    pub open spec fn wf(self) -> bool {
        self.hour < 24 && self.minute < 60 && self.second < 60
    }
}

/// A calendar date with an optional time of day.
#[derive(Debug, Clone, Copy, PartialEq, Eq)]
pub struct Time {
    pub date: Date,
    pub time: Option<TimeOfDay>,
}

impl Time {
    pub open spec fn wf(self) -> bool {
        self.date.wf() && match self.time {
            Some(t) => t.wf(),
            None => true,
        }
    }
}

/// Game clock configuration: a main allotment and a per-move byoyomi.
#[derive(Debug, Clone, Copy, PartialEq, Eq, Structural)]
pub struct TimeLimit {
    pub main_time: Duration,
    pub byoyomi: Duration,
}

/// One event of the move stream: a move proper, one of the closed set of
/// terminal or administrative events, or `Error` for a token the dialect does
/// not recognize.
#[derive(Debug, Clone, Copy, PartialEq, Eq)]
pub enum Action {
    Move(Color, Square, Square, PieceType),
    Toryo,
    Chudan,
    Sennichite,
    TimeUp,
    IllegalMove,
    IllegalAction(Color),
    Jishogi,
    Kachi,
    Hikiwake,
    Matta,
    MaxMoves,
    Tsumi,
    Fuzumi,
    Error,
}

/// One line item of the game: an action and the elapsed time that followed
/// it, if a timing line did.
#[derive(Debug, Clone, Copy, PartialEq, Eq)]
pub struct MoveRecord {
    pub action: Action,
    pub time: Option<Duration>,
}

/// The content of one board cell.
pub type Cell = Option<(Color, PieceType)>;

/// A board grid, row-major; the well-formedness predicate fixes its shape.
pub type Grid = Vec<Vec<Cell>>;

/// The mathematical shape of a grid.
pub open spec fn grid_view(g: Grid) -> Seq<Seq<Cell>> {
    g@.map_values(|row: Vec<Cell>| row@)
}

/// `g` is a `rows` by `cols` board.
pub open spec fn grid_wf(g: Seq<Seq<Cell>>, rows: int, cols: int) -> bool {
    g.len() == rows && forall|i: int| 0 <= i < rows ==> (#[trigger] g[i]).len() == cols
}

/// The mathematical view of a starting position.
#[verifier::ext_equal]
pub ghost struct PositionModel {
    pub drop_pieces: Seq<(Square, PieceType)>,
    pub bulk: Option<Seq<Seq<Cell>>>,
    pub minishogi_bulk: Option<Seq<Seq<Cell>>>,
    pub wildcat_bulk: Option<Seq<Seq<Cell>>>,
    pub add_pieces: Seq<(Color, Square, PieceType)>,
    pub side_to_move: Color,
}

impl PositionModel {
    /// How many of the three mutually exclusive grid encodings are set.
    pub open spec fn grid_count(self) -> int {
        (if self.bulk is Some { 1int } else { 0int })
        + (if self.minishogi_bulk is Some { 1int } else { 0int })
        + (if self.wildcat_bulk is Some { 1int } else { 0int })
    }

    pub open spec fn wf(self) -> bool {
        &&& self.grid_count() <= 1
        &&& match self.bulk {
            Some(g) => grid_wf(g, 9, 9),
            None => true,
        }
        &&& match self.minishogi_bulk {
            Some(g) => grid_wf(g, 5, 5),
            None => true,
        }
        &&& match self.wildcat_bulk {
            Some(g) => grid_wf(g, 5, 3),
            None => true,
        }
        &&& forall|i: int|
            0 <= i < self.drop_pieces.len() ==> (#[trigger] self.drop_pieces[i]).0.wf()
        &&& forall|i: int|
            0 <= i < self.add_pieces.len() ==> (#[trigger] self.add_pieces[i]).1.wf()
    }

    pub open spec fn init() -> PositionModel {
        PositionModel {
            drop_pieces: Seq::empty(),
            bulk: None,
            minishogi_bulk: None,
            wildcat_bulk: None,
            add_pieces: Seq::empty(),
            side_to_move: Color::Black,
        }
    }
}

/// Starting board state: handicap removals, at most one native grid, explicit
/// placements, and the side to move.
#[derive(Debug, Clone, PartialEq, Eq)]
pub struct Position {
    pub drop_pieces: Vec<(Square, PieceType)>,
    pub bulk: Option<Grid>,
    pub minishogi_bulk: Option<Grid>,
    pub wildcat_bulk: Option<Grid>,
    pub add_pieces: Vec<(Color, Square, PieceType)>,
    pub side_to_move: Color,
}

impl View for Position {
    type V = PositionModel;

    open spec fn view(&self) -> PositionModel {
        PositionModel {
            drop_pieces: self.drop_pieces@,
            bulk: match self.bulk {
                Some(g) => Some(grid_view(g)),
                None => None,
            },
            minishogi_bulk: match self.minishogi_bulk {
                Some(g) => Some(grid_view(g)),
                None => None,
            },
            wildcat_bulk: match self.wildcat_bulk {
                Some(g) => Some(grid_view(g)),
                None => None,
            },
            add_pieces: self.add_pieces@,
            side_to_move: self.side_to_move,
        }
    }
}

impl Default for Position {
    fn default() -> (r: Position)
        ensures
            r@ == PositionModel::init(),
    {
        Position {
            drop_pieces: Vec::new(),
            bulk: None,
            minishogi_bulk: None,
            wildcat_bulk: None,
            add_pieces: Vec::new(),
            side_to_move: Color::Black,
        }
    }
}

/// The mathematical view of a parsed game.
#[verifier::ext_equal]
pub ghost struct GameRecordModel {
    pub black_player: Option<Seq<char>>,
    pub white_player: Option<Seq<char>>,
    pub event: Option<Seq<char>>,
    pub site: Option<Seq<char>>,
    pub opening: Option<Seq<char>>,
    pub start_time: Option<Time>,
    pub end_time: Option<Time>,
    pub time_limit: Option<TimeLimit>,
    pub start_pos: PositionModel,
    pub moves: Seq<MoveRecord>,
}

impl GameRecordModel {
    pub open spec fn init() -> GameRecordModel {
        GameRecordModel {
            black_player: None,
            white_player: None,
            event: None,
            site: None,
            opening: None,
            start_time: None,
            end_time: None,
            time_limit: None,
            start_pos: PositionModel::init(),
            moves: Seq::empty(),
        }
    }
}

/// One parsed game: players, metadata, starting position and the ordered
/// sequence of move records, in file order.
#[derive(Debug, Clone, PartialEq, Eq)]
pub struct GameRecord {
    pub black_player: Option<String>,
    pub white_player: Option<String>,
    pub event: Option<String>,
    pub site: Option<String>,
    pub opening: Option<String>,
    pub start_time: Option<Time>,
    pub end_time: Option<Time>,
    pub time_limit: Option<TimeLimit>,
    pub start_pos: Position,
    pub moves: Vec<MoveRecord>,
}

/// The view of an optional owned string.
pub open spec fn opt_string_view(s: Option<String>) -> Option<Seq<char>> {
    match s {
        Some(t) => Some(t@),
        None => None,
    }
}

impl View for GameRecord {
    type V = GameRecordModel;

    open spec fn view(&self) -> GameRecordModel {
        GameRecordModel {
            black_player: opt_string_view(self.black_player),
            white_player: opt_string_view(self.white_player),
            event: opt_string_view(self.event),
            site: opt_string_view(self.site),
            opening: opt_string_view(self.opening),
            start_time: self.start_time,
            end_time: self.end_time,
            time_limit: self.time_limit,
            start_pos: self.start_pos@,
            moves: self.moves@,
        }
    }
}

impl Default for GameRecord {
    fn default() -> (r: GameRecord)
        ensures
            r@ == GameRecordModel::init(),
    {
        GameRecord {
            black_player: None,
            white_player: None,
            event: None,
            site: None,
            opening: None,
            start_time: None,
            end_time: None,
            time_limit: None,
            start_pos: Position::default(),
            moves: Vec::new(),
        }
    }
}

} // verus!
