//! SAN to UCI translation against the standard starting position.
//!
//! The chess rules themselves live in an outside library; this module pairs
//! its opaque position type with the ghost sequence of UCI moves that
//! produced it, so the translation pipeline and its round-trip behaviour are
//! verified over plain move sequences.

use vstd::prelude::*;

use shakmaty::Position;

use crate::error::Error;

verus! {

#[verifier::external_type_specification]
#[verifier::external_body]
pub struct ExChess(shakmaty::Chess);

/// The canonical UCI encoding of the move that `san` denotes at the position
/// reached by playing `played` — each entry a UCI move — from the standard
/// starting position with standard castling; `None` where `san` does not
/// denote a unique legal move there.
pub uninterp spec fn san_uci(played: Seq<Seq<char>>, san: Seq<char>) -> Option<Seq<char>>;

/// Whether `uci` denotes a legal move at the position reached by playing
/// `played` from the standard starting position.
pub uninterp spec fn uci_ok(played: Seq<Seq<char>>, uci: Seq<char>) -> bool;

/// Relies on shakmaty's `Chess::default`: the initial position of a regular
/// chess game. `Board::start` pairs it with the empty move history.
#[verifier::external_body]
fn chess_start() -> shakmaty::Chess {
    shakmaty::Chess::default()
}

/// A position, paired with the UCI moves that produced it from the standard
/// starting position.
pub struct Board {
    pos: shakmaty::Chess,
    played: Ghost<Seq<Seq<char>>>,
}

impl Board {
    /// The UCI moves played so far, oldest first.
    pub closed spec fn moves(self) -> Seq<Seq<char>> {
        self.played@
    }

    /// The standard starting position.
    pub fn start() -> (b: Board)
        ensures
            b.moves() == Seq::<Seq<char>>::empty(),
    {
        let ghost played: Seq<Seq<char>> = Seq::empty();
        Board { pos: chess_start(), played: Ghost(played) }
    }

    /// Plays one SAN move, returning its canonical UCI encoding, or `None`
    /// and an unchanged position where the SAN is not a unique legal move.
    ///
    /// Relies on shakmaty's `San::from_ascii`, `San::to_move`, `Move::to_uci`
    /// (standard castling) and `Position::play`: together a pure function of
    /// the position and the SAN text. The emitted encoding parses back to the
    /// same legal move at the same position, which `uci_ok` records.
    #[verifier::external_body]
    pub fn play_san(&mut self, san: &str) -> (r: Option<String>)
        ensures
            match r {
                Some(u) => {
                    &&& san_uci(old(self).moves(), san@) == Some(u@)
                    &&& uci_ok(old(self).moves(), u@)
                    &&& final(self).moves() == old(self).moves().push(u@)
                },
                None => {
                    &&& san_uci(old(self).moves(), san@) is None
                    &&& final(self).moves() == old(self).moves()
                },
            },
    {
        let Ok(parsed) = shakmaty::san::San::from_ascii(san.as_bytes()) else {
            return None;
        };
        let Ok(m) = parsed.to_move(&self.pos) else {
            return None;
        };
        let uci = m.to_uci(shakmaty::CastlingMode::Standard).to_string();
        let Ok(next) = self.pos.clone().play(m) else {
            return None;
        };
        self.pos = next;
        Some(uci)
    }

    /// Plays one UCI move, or changes nothing where it is not legal here.
    ///
    /// Relies on shakmaty's `UciMove::from_ascii`, `UciMove::to_move` and
    /// `Position::play`: together a pure function of the position and the
    /// UCI text.
    #[verifier::external_body]
    pub fn play_uci(&mut self, uci: &str) -> (r: bool)
        ensures
            r == uci_ok(old(self).moves(), uci@),
            r ==> final(self).moves() == old(self).moves().push(uci@),
            !r ==> final(self).moves() == old(self).moves(),
    {
        let Ok(parsed) = shakmaty::uci::UciMove::from_ascii(uci.as_bytes()) else {
            return false;
        };
        let Ok(m) = parsed.to_move(&self.pos) else {
            return false;
        };
        let Ok(next) = self.pos.clone().play(m) else {
            return false;
        };
        self.pos = next;
        true
    }
}

/// Translates a SAN line played after `played`: the history it ends in, or
/// `None` at the first move that is not uniquely legal.
pub open spec fn san_line(played: Seq<Seq<char>>, sans: Seq<Seq<char>>) -> Option<Seq<Seq<char>>>
    decreases sans.len(),
{
    if sans.len() == 0 {
        Some(played)
    } else {
        match san_uci(played, sans[0]) {
            None => None,
            Some(u) => san_line(played.push(u), sans.skip(1)),
        }
    }
}

/// Every move of `ucis`, played in order after `played`, is legal.
pub open spec fn uci_line_ok(played: Seq<Seq<char>>, ucis: Seq<Seq<char>>) -> bool
    decreases ucis.len(),
{
    if ucis.len() == 0 {
        true
    } else {
        uci_ok(played, ucis[0]) && uci_line_ok(played.push(ucis[0]), ucis.skip(1))
    }
}

/// Translation is ply for ply: a translated line is exactly one UCI move per
/// SAN move.
pub proof fn lemma_san_line_len(played: Seq<Seq<char>>, sans: Seq<Seq<char>>, r: Seq<Seq<char>>)
    requires
        san_line(played, sans) == Some(r),
    ensures
        r.len() == played.len() + sans.len(),
    decreases sans.len(),
{
    if sans.len() > 0 {
        let u = san_uci(played, sans[0]).unwrap();
        lemma_san_line_len(played.push(u), sans.skip(1), r);
    }
}

/// A legal line stays legal when extended by a move legal at its end.
pub proof fn lemma_uci_line_ok_push(played: Seq<Seq<char>>, ucis: Seq<Seq<char>>, u: Seq<char>)
    requires
        uci_line_ok(played, ucis),
        uci_ok(played + ucis, u),
    ensures
        uci_line_ok(played, ucis.push(u)),
    decreases ucis.len(),
{
    if ucis.len() == 0 {
        assert(played + ucis =~= played);
        assert(ucis.push(u)[0] == u);
        assert(ucis.push(u).skip(1) =~= Seq::<Seq<char>>::empty());
        assert(uci_line_ok(played.push(u), ucis.push(u).skip(1)));
        assert(uci_line_ok(played, ucis.push(u)));
    } else {
        assert(played.push(ucis[0]) + ucis.skip(1) =~= played + ucis);
        lemma_uci_line_ok_push(played.push(ucis[0]), ucis.skip(1), u);
        assert(ucis.push(u)[0] == ucis[0]);
        assert(ucis.push(u).skip(1) =~= ucis.skip(1).push(u));
        assert(uci_line_ok(played.push(ucis[0]), ucis.push(u).skip(1)));
        assert(uci_line_ok(played, ucis.push(u)));
    }
}

/// A line with one illegal step is not legal as a whole.
pub proof fn lemma_uci_line_ok_fails(played: Seq<Seq<char>>, ucis: Seq<Seq<char>>, i: int)
    requires
        0 <= i < ucis.len(),
        !uci_ok(played + ucis.take(i), ucis[i]),
    ensures
        !uci_line_ok(played, ucis),
    decreases i,
{
    if i == 0 {
        assert(played + ucis.take(0) =~= played);
    } else {
        if uci_ok(played, ucis[0]) {
            assert(played.push(ucis[0]) + ucis.skip(1).take(i - 1) =~= played + ucis.take(i));
            assert(ucis.skip(1)[i - 1] == ucis[i]);
            lemma_uci_line_ok_fails(played.push(ucis[0]), ucis.skip(1), i - 1);
        }
    }
}

/// Translates a space-free SAN move list to UCI against the standard
/// starting position. On an illegal or ambiguous move the whole request
/// fails: nothing partial is returned. The translated line is itself a legal
/// UCI line, so replaying it reproduces exactly the same game
/// ([`replay_uci`]).
pub fn uci_from_san(sans: &Vec<String>) -> (r: Result<Vec<String>, Error>)
    ensures
        match r {
            Ok(ucis) => {
                &&& san_line(Seq::<Seq<char>>::empty(), sans.deep_view()) == Some(ucis.deep_view())
                &&& uci_line_ok(Seq::<Seq<char>>::empty(), ucis.deep_view())
            },
            Err(e) => {
                &&& e == Error::InvalidMoves
                &&& san_line(Seq::<Seq<char>>::empty(), sans.deep_view()) is None
            },
        },
{
    let ghost sans0 = sans.deep_view();
    let ghost empty = Seq::<Seq<char>>::empty();
    let mut board = Board::start();
    let mut ucis: Vec<String> = Vec::new();
    proof {
        assert(ucis.deep_view() =~= Seq::<Seq<char>>::empty());
        assert(sans0.skip(0) =~= sans0);
    }
    let n = sans.len();
    let mut i: usize = 0;
    while i < n
        invariant
            n == sans0.len(),
            sans0 == sans.deep_view(),
            0 <= i <= n,
            board.moves() == ucis.deep_view(),
            uci_line_ok(empty, ucis.deep_view()),
            empty == Seq::<Seq<char>>::empty(),
            san_line(empty, sans0) == san_line(ucis.deep_view(), sans0.skip(i as int)),
        decreases n - i,
    {
        let ghost played = board.moves();
        match board.play_san(&sans[i]) {
            Some(u) => {
                proof {
                    let rest = sans0.skip(i as int);
                    assert(rest[0] == sans0[i as int]);
                    assert(rest.skip(1) =~= sans0.skip(i as int + 1));
                    assert(played + played.skip(played.len() as int) =~= played);
                    lemma_uci_line_ok_push(empty, ucis.deep_view(), u@);
                    assert(empty + ucis.deep_view() =~= ucis.deep_view());
                }
                ucis.push(u);
                proof {
                    assert(ucis.deep_view() =~= played.push(ucis.deep_view().last()));
                }
            },
            None => {
                proof {
                    let rest = sans0.skip(i as int);
                    assert(rest[0] == sans0[i as int]);
                }
                return Err(Error::InvalidMoves);
            },
        }
        i = i + 1;
    }
    proof {
        assert(sans0.skip(n as int) =~= Seq::<Seq<char>>::empty());
    }
    Ok(ucis)
}

/// Replays a UCI move list from the standard starting position. Where every
/// move is legal, the board it returns has played exactly the given
/// sequence — the round trip through emission and parsing is the identity on
/// the move sequence.
pub fn replay_uci(ucis: &Vec<String>) -> (r: Option<Board>)
    ensures
        match r {
            Some(b) => {
                &&& uci_line_ok(Seq::<Seq<char>>::empty(), ucis.deep_view())
                &&& b.moves() == ucis.deep_view()
            },
            None => !uci_line_ok(Seq::<Seq<char>>::empty(), ucis.deep_view()),
        },
{
    let ghost ucis0 = ucis.deep_view();
    let ghost empty = Seq::<Seq<char>>::empty();
    let mut board = Board::start();
    let n = ucis.len();
    let mut i: usize = 0;
    while i < n
        invariant
            n == ucis0.len(),
            ucis0 == ucis.deep_view(),
            0 <= i <= n,
            board.moves() == ucis0.take(i as int),
            uci_line_ok(empty, ucis0.take(i as int)),
            empty == Seq::<Seq<char>>::empty(),
        decreases n - i,
    {
        let ok = board.play_uci(&ucis[i]);
        if !ok {
            proof {
                assert(empty + ucis0.take(i as int) =~= ucis0.take(i as int));
                lemma_uci_line_ok_fails(empty, ucis0, i as int);
            }
            return None;
        }
        proof {
            assert(empty + ucis0.take(i as int) =~= ucis0.take(i as int));
            lemma_uci_line_ok_push(empty, ucis0.take(i as int), ucis0[i as int]);
            assert(ucis0.take(i as int).push(ucis0[i as int]) =~= ucis0.take(i as int + 1));
        }
        i = i + 1;
    }
    proof {
        assert(ucis0.take(n as int) =~= ucis0);
    }
    Some(board)
}

} // verus!
