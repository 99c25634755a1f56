use vstd::prelude::*;
use vstd::string::*;
use std::collections::HashMap;
use std::sync::Arc;
use crate::bits::{bit, is_set, group_bits, lemma_bits_ext, lowest, squares_of, lemma_squares_of, lemma_squares_step, lemma_lowest, lemma_is_set_zero};
use crate::precomputed::{castle_empty_spec, castle_path_spec};
use crate::game::playerobj::{piece_bb, side_bb, own_of, parsed_move_spec, valid_coordinates, start_seq};
use crate::create_game_board;
use crate::BitIterator;
use crate::geometry::{
    knight_spec, king_spec, white_pawn_attack_spec, black_pawn_attack_spec, white_pawn_push_spec,
    black_pawn_push_spec, rook_attacks, bishop_attacks,
};
use crate::magic::{magic_index_exec, subset_of, popcount, count_ones, cnt_from};
use crate::geometry::between_spec;
use crate::game::Move;
use crate::game::playerobj::{Player, lemma_matches_move, lemma_matches_remove, lemma_matches_other_squares, lemma_matches_promote};
use crate::{Bitboard, CastleOption, Color, Piece, PieceType, Square, PrecomputedItems};
use crate::precomputed::ZobristTable;
use crate::position_hash::{square_key, board_key, ep_key, castling_key, lemma_board_key_update, lemma_xor_swap, lemma_xor_cancel};
use crate::game::playerobj::is_color;
use crate::game::perft::{frame_of, perft_moves, movegen_ready, has_legal_move};
use crate::game::fen::push_char;

verus! {

broadcast use {group_bits, crate::square::group_square};

/// How a game stands.
#[derive(Debug, Clone, Copy, PartialEq, Eq, Structural)]
pub enum GameResult {
    Ongoing,
    /// The side that delivered mate.
    Checkmate(Color),
    Stalemate,
    FiftyMoveRule,
    ThreefoldRepetition,
    InsufficientMaterial,
}

/// The full state of a game: the squares, both sides' bitboards, castling rights, the
/// en passant target, the draw counters and the position history.
#[derive(Debug)]
pub struct GameBoard {
    pub player1: Player,
    pub player2: Player,
    pub board_arr: [Option<Piece>; 64],
    pub white_pieces: Bitboard,
    pub precomputed_items: Arc<PrecomputedItems>,
    pub black_pieces: Bitboard,
    pub combined_pieces: Bitboard,
    pub in_check: bool,
    pub white_pins: Bitboard,
    pub black_pins: Bitboard,
    pub game_result: GameResult,
    pub white_kingside: bool,
    pub white_queenside: bool,
    pub black_kingside: bool,
    pub black_queenside: bool,
    pub last_move: Move,
    pub en_passant_target: Option<usize>,
    pub halfmove_clock: u32,
    /// How often each position (by hash) has occurred.
    pub position_history: HashMap<u64, u8>,
    pub zobrist_hash: u64,
}

/// Squares a pawn of `color` on `sq` may move to: pushes onto empty squares (the double
/// push only when the square in front is empty too), captures of `enemy` pieces, and the
/// en passant target when it attacks it.
pub open spec fn pawn_moves_spec(ep: Option<usize>, sq: int, color: Color, enemy: u64, board: u64) -> u64 {
    let pushes = if color == Color::White {
        white_pawn_push_spec(sq)
    } else {
        black_pawn_push_spec(sq)
    };
    let attacks = if color == Color::White {
        white_pawn_attack_spec(sq)
    } else {
        black_pawn_attack_spec(sq)
    };
    let dir: int = if color == Color::White {
        8
    } else {
        -8
    };
    let one = sq + dir;
    let two = sq + 2 * dir;
    let vp0 = pushes & !board;
    let vp = if 0 <= one < 64 && is_set(board, one) && 0 <= two < 64 {
        vp0 & !bit(two)
    } else {
        vp0
    };
    let va0 = attacks & enemy;
    let va = match ep {
        Some(e) => if is_set(attacks, e as int) {
            va0 | bit(e as int)
        } else {
            va0
        },
        None => va0,
    };
    vp | va
}

/// Squares a `piece` of `color` on `sq` may move to (captures included, own pieces
/// excluded, king safety not considered), with `board` the occupancy and `white` and
/// `black` the two sides' pieces.
pub open spec fn move_mask_spec(
    ep: Option<usize>,
    sq: int,
    color: Color,
    piece: PieceType,
    board: u64,
    white: u64,
    black: u64,
) -> u64 {
    let own = if color == Color::White {
        white
    } else {
        black
    };
    let enemy = if color == Color::White {
        black
    } else {
        white
    };
    match piece {
        PieceType::Pawn => pawn_moves_spec(ep, sq, color, enemy, board),
        PieceType::Knight => knight_spec(sq) & !own,
        PieceType::King => king_spec(sq) & !own,
        PieceType::Rook => rook_attacks(sq, board) & !own,
        PieceType::Bishop => bishop_attacks(sq, board) & !own,
        PieceType::Queen => (rook_attacks(sq, board) | bishop_attacks(sq, board)) & !own,
    }
}

/// Pieces of `attacker_color` (kind bitboards `bbs`) that attack square `sq`: for each
/// kind, the squares a piece of that kind of the other side would move to from `sq`,
/// kept where the attacker has a piece of that kind.
pub open spec fn attackers_spec(
    bbs: Seq<u64>,
    ep: Option<usize>,
    sq: int,
    attacker_color: Color,
    board: u64,
    white: u64,
    black: u64,
) -> u64 {
    let o = attacker_color.opp();
    0u64 | (move_mask_spec(ep, sq, o, PieceType::Pawn, board, white, black) & bbs[0]) | (move_mask_spec(
        ep,
        sq,
        o,
        PieceType::Knight,
        board,
        white,
        black,
    ) & bbs[1]) | (move_mask_spec(ep, sq, o, PieceType::King, board, white, black) & bbs[5]) | (move_mask_spec(
        ep,
        sq,
        o,
        PieceType::Rook,
        board,
        white,
        black,
    ) & bbs[3]) | (move_mask_spec(ep, sq, o, PieceType::Bishop, board, white, black) & bbs[2])
        | (move_mask_spec(ep, sq, o, PieceType::Queen, board, white, black) & bbs[4])
}

/// The home square of `c`'s king.
pub open spec fn king_home(c: Color) -> int {
    if c == Color::White {
        4
    } else {
        60
    }
}

/// Where `c`'s king lands when castling to side `o`.
pub open spec fn castle_dest(c: Color, o: CastleOption) -> int {
    king_home(c) + if o == CastleOption::Kingside {
        2
    } else {
        -2
    }
}

/// The square `c`'s rook leaves when castling to side `o`.
pub open spec fn rook_from_sq(o: CastleOption, c: Color) -> int {
    match (o, c) {
        (CastleOption::Kingside, Color::White) => 7,
        (CastleOption::Kingside, Color::Black) => 63,
        (CastleOption::Queenside, Color::White) => 0,
        (CastleOption::Queenside, Color::Black) => 56,
    }
}

/// The square `c`'s rook reaches when castling to side `o`.
pub open spec fn rook_to_sq(o: CastleOption, c: Color) -> int {
    match (o, c) {
        (CastleOption::Kingside, Color::White) => 5,
        (CastleOption::Kingside, Color::Black) => 61,
        (CastleOption::Queenside, Color::White) => 3,
        (CastleOption::Queenside, Color::Black) => 59,
    }
}

/// The square of the pawn that a pawn of `c` captures en passant by moving to `to`.
pub open spec fn ep_capture_sq(c: Color, to: int) -> int {
    if c == Color::White {
        to - 8
    } else {
        to + 8
    }
}

/// Whether `mv`, made by the piece on its `from` square, captures en passant.
pub open spec fn is_ep_capture(arr: Seq<Option<Piece>>, ep: Option<usize>, mv: Move) -> bool {
    arr[mv.from.idx()] matches Some(p) && p.piece_type == PieceType::Pawn && ep == Some(mv.to.idx() as usize)
}

/// The squares after `mv` is made by the piece on its `from` square: that piece leaves
/// `from` and lands on `to` (as the promotion piece, if any); a castle also moves the
/// rook; an en passant capture also empties the captured pawn's square.
pub open spec fn moved_arr(arr: Seq<Option<Piece>>, ep: Option<usize>, mv: Move) -> Seq<Option<Piece>> {
    let from = mv.from.idx();
    let to = mv.to.idx();
    let c = arr[from]->0.color;
    Seq::new(
        64,
        |k: int|
            if k == to {
                match mv.promotion_piece_type {
                    Some(t) => Some(Piece { piece_type: t, color: c }),
                    None => arr[from],
                }
            } else if k == from {
                None
            } else if mv.castle_option is Some && k == rook_to_sq(mv.castle_option->0, c) {
                arr[rook_from_sq(mv.castle_option->0, c)]
            } else if mv.castle_option is Some && k == rook_from_sq(mv.castle_option->0, c) {
                None
            } else if is_ep_capture(arr, ep, mv) && k == ep_capture_sq(c, to) {
                None
            } else {
                arr[k]
            },
    )
}

/// The en passant target after `mv`: the square a pawn skipped with a double push.
pub open spec fn ep_after(arr: Seq<Option<Piece>>, mv: Move) -> Option<usize> {
    let from = mv.from.idx();
    let to = mv.to.idx();
    let p = arr[from]->0;
    if p.piece_type == PieceType::Pawn && (from - to == 16 || to - from == 16) {
        Some(
            (if p.color == Color::White {
                from + 8
            } else {
                from - 8
            }) as usize,
        )
    } else {
        None
    }
}

impl GameBoard {
    /// The lookup tables are complete and the en passant target, if any, is a square.
    pub open spec fn tables_ok(&self) -> bool {
        &&& self.precomputed_items.wf()
        &&& (self.en_passant_target matches Some(e) ==> e < 64)
    }

    /// The player of side `c`.
    pub open spec fn player_of(&self, c: Color) -> Player {
        if c == Color::White {
            self.player1
        } else {
            self.player2
        }
    }

    /// Squares a `piece_type` slider on `sq` reaches: rook and bishop reaches from the
    /// magic tables, nothing for other kinds.
    fn get_sliding_moves(&self, sq: usize, piece_type: PieceType, board: Bitboard) -> (r: u64)
        requires
            self.precomputed_items.wf(),
            sq < 64,
        ensures
            r == (match piece_type {
                PieceType::Rook => rook_attacks(sq as int, board),
                PieceType::Bishop => bishop_attacks(sq as int, board),
                _ => 0,
            }),
    {
        match piece_type {
            PieceType::Rook => {
                let e = &self.precomputed_items.rook_moves[sq];
                let occ = e.mask & board;
                proof {
                    assert(subset_of(occ, e.mask)) by {
                        lemma_bits_ext(occ & e.mask, occ);
                    }
                    crate::pieces::mod_rook::lemma_rook_attacks_masked(sq as int, e.mask, board);
                }
                let hash = magic_index_exec(occ, e.magic_num, e.sig_bits);
                e.magic_table[hash]
            },
            PieceType::Bishop => {
                let e = &self.precomputed_items.bishop_moves[sq];
                let occ = e.mask & board;
                proof {
                    assert(subset_of(occ, e.mask)) by {
                        lemma_bits_ext(occ & e.mask, occ);
                    }
                    crate::pieces::bishop::lemma_bishop_attacks_masked(sq as int, e.mask, board);
                }
                let hash = magic_index_exec(occ, e.magic_num, e.sig_bits);
                e.magic_table[hash]
            },
            _ => 0,
        }
    }

    /// Pawn pushes and captures (see `pawn_moves_spec`).
    fn get_pawn_moves(&self, sq: usize, color: Color, enemy_pieces: u64, board: Bitboard) -> (r: u64)
        requires
            self.tables_ok(),
            sq < 64,
        ensures
            r == pawn_moves_spec(self.en_passant_target, sq as int, color, enemy_pieces, board),
    {
        let (pushes, attacks) = match color {
            Color::White => (
                self.precomputed_items.white_pawn_pushes[sq],
                self.precomputed_items.white_pawn_attacks[sq],
            ),
            Color::Black => (
                self.precomputed_items.black_pawn_pushes[sq],
                self.precomputed_items.black_pawn_attacks[sq],
            ),
        };
        // Pushes land on empty squares only.
        let mut valid_pushes = pushes & !board;
        // A blocked square in front also blocks the double push.
        let push_direction: i8 = if color == Color::White {
            8
        } else {
            -8
        };
        let one_step = sq as i8 + push_direction;
        if 0 <= one_step && one_step < 64 {
            let one_step_sq = 1u64 << (one_step as u64);
            if (board & one_step_sq) != 0 {
                let double_step = sq as i8 + 2 * push_direction;
                if 0 <= double_step && double_step < 64 {
                    let double_step_sq = 1u64 << (double_step as u64);
                    valid_pushes &= !double_step_sq;
                }
            }
        }
        // Captures need an enemy piece, or the en passant target.
        let mut valid_attacks = attacks & enemy_pieces;
        if let Some(ep_sq) = self.en_passant_target {
            if attacks & (1u64 << (ep_sq as u64)) != 0 {
                valid_attacks |= 1u64 << (ep_sq as u64);
            }
        }
        valid_pushes | valid_attacks
    }

    /// Squares a `piece` of `color` on `sq` may move to, own pieces excluded and king
    /// safety not considered (see `move_mask_spec`).
    pub fn get_move_mask(
        &self,
        sq: usize,
        color: Color,
        piece: PieceType,
        board: Bitboard,
        white_pieces: Bitboard,
        black_pieces: Bitboard,
    ) -> (r: u64)
        requires
            self.tables_ok(),
            sq < 64,
        ensures
            r == move_mask_spec(self.en_passant_target, sq as int, color, piece, board, white_pieces, black_pieces),
    {
        let own_pieces = if color == Color::White {
            white_pieces
        } else {
            black_pieces
        };
        let enemy_pieces = if color == Color::White {
            black_pieces
        } else {
            white_pieces
        };
        match piece {
            PieceType::Pawn => self.get_pawn_moves(sq, color, enemy_pieces, board),
            PieceType::Knight => self.precomputed_items.knight_moves[sq] & !own_pieces,
            PieceType::King => self.precomputed_items.king_moves[sq] & !own_pieces,
            PieceType::Rook => self.get_sliding_moves(sq, PieceType::Rook, board) & !own_pieces,
            PieceType::Bishop => self.get_sliding_moves(sq, PieceType::Bishop, board) & !own_pieces,
            PieceType::Queen => {
                (self.get_sliding_moves(sq, PieceType::Rook, board) | self.get_sliding_moves(
                    sq,
                    PieceType::Bishop,
                    board,
                )) & !own_pieces
            },
        }
    }

    /// The pieces of `attacker_color` that attack square `sq` (see `attackers_spec`).
    pub fn get_attackers(
        &self,
        sq: usize,
        attacker_color: Color,
        board: Bitboard,
        white_pieces: Bitboard,
        black_pieces: Bitboard,
    ) -> (r: u64)
        requires
            self.tables_ok(),
            sq < 64,
        ensures
            r == attackers_spec(
                self.player_of(attacker_color).pieces_bb@,
                self.en_passant_target,
                sq as int,
                attacker_color,
                board,
                white_pieces,
                black_pieces,
            ),
    {
        let mut attackers = 0u64;
        let opponent = if attacker_color == Color::White {
            &self.player1
        } else {
            &self.player2
        };
        let opp_color = if attacker_color == Color::White {
            Color::Black
        } else {
            Color::White
        };
        attackers |= self.get_move_mask(sq, opp_color, PieceType::Pawn, board, white_pieces, black_pieces)
            & opponent.pieces_bb[0];
        attackers |= self.get_move_mask(sq, opp_color, PieceType::Knight, board, white_pieces, black_pieces)
            & opponent.pieces_bb[1];
        attackers |= self.get_move_mask(sq, opp_color, PieceType::King, board, white_pieces, black_pieces)
            & opponent.pieces_bb[5];
        attackers |= self.get_move_mask(sq, opp_color, PieceType::Rook, board, white_pieces, black_pieces)
            & opponent.pieces_bb[3];
        attackers |= self.get_move_mask(sq, opp_color, PieceType::Bishop, board, white_pieces, black_pieces)
            & opponent.pieces_bb[2];
        attackers |= self.get_move_mask(sq, opp_color, PieceType::Queen, board, white_pieces, black_pieces)
            & opponent.pieces_bb[4];
        attackers
    }

    /// Both players' bitboards and own boards describe exactly the pieces on the squares.
    pub open spec fn players_ok(&self) -> bool {
        players_match(self.player1, self.player2, self.board_arr@)
    }

    /// An en passant target lies behind a pawn that has just moved two squares: the
    /// target and the square the pawn left are empty.
    pub open spec fn ep_ok(&self) -> bool {
        let arr = self.board_arr@;
        match self.en_passant_target {
            Some(e) => {
                ||| (16 <= e < 24 && arr[e - 8] is None && arr[e as int] is None && arr[e + 8] == Some(
                    Piece { piece_type: PieceType::Pawn, color: Color::White },
                ))
                ||| (40 <= e < 48 && arr[e + 8] is None && arr[e as int] is None && arr[e - 8] == Some(
                    Piece { piece_type: PieceType::Pawn, color: Color::Black },
                ))
            },
            None => true,
        }
    }

    /// The fields that moving pieces leaves alone are those of `o`.
    pub open spec fn same_meta(&self, o: GameBoard) -> bool {
        &&& self.precomputed_items == o.precomputed_items
        &&& self.white_pieces == o.white_pieces
        &&& self.black_pieces == o.black_pieces
        &&& self.combined_pieces == o.combined_pieces
        &&& self.in_check == o.in_check
        &&& self.white_pins == o.white_pins
        &&& self.black_pins == o.black_pins
        &&& self.game_result == o.game_result
        &&& self.white_kingside == o.white_kingside
        &&& self.white_queenside == o.white_queenside
        &&& self.black_kingside == o.black_kingside
        &&& self.black_queenside == o.black_queenside
        &&& self.last_move == o.last_move
        &&& self.halfmove_clock == o.halfmove_clock
        &&& self.position_history@ == o.position_history@
    }

    /// The hash combined with the key of the squares: what the hash holds beyond the pieces.
    pub open spec fn hash_excess(&self) -> u64 {
        self.zobrist_hash ^ board_key(self.precomputed_items.zobrist, self.board_arr@)
    }

    /// `mv` is a move `update_board` can make on this board: a piece stands on `from`,
    /// `to` holds none of its own side, only pawns promote, on the far rank, a castle is made by the king
    /// from its home square towards its rook, which stands on its square with the square
    /// it lands on empty, and a pawn moves two squares only forward from its starting rank
    /// over an empty square.
    pub open spec fn update_ok(&self, mv: Move) -> bool {
        let from = mv.from.idx();
        let to = mv.to.idx();
        let arr = self.board_arr@;
        let p = arr[from]->0;
        let c = p.color;
        &&& self.tables_ok()
        &&& self.players_ok()
        &&& self.ep_ok()
        &&& from != to
        &&& arr[from] is Some
        &&& !is_color(arr[to], c)
        &&& (mv.promotion_piece_type is Some ==> p.piece_type == PieceType::Pawn && to / 8 == (if c == Color::White {
            7int
        } else {
            0int
        }))
        &&& (mv.castle_option matches Some(o) ==> {
            &&& p.piece_type == PieceType::King
            &&& from == king_home(c)
            &&& to % 8 == (if o == CastleOption::Kingside {
                6int
            } else {
                2int
            })
            &&& arr[rook_from_sq(o, c)] == Some(Piece { piece_type: PieceType::Rook, color: c })
            &&& arr[rook_to_sq(o, c)] is None
        })
        &&& (p.piece_type == PieceType::Pawn && (from - to == 16 || to - from == 16) ==> if c == Color::White {
            8 <= from < 16 && to == from + 16 && arr[from + 8] is None
        } else {
            48 <= from < 56 && to == from - 16 && arr[from - 8] is None
        })
    }

    /// Takes the piece on `sq` off the squares, its side's bitboards and own board, and
    /// its key out of the hash.
    fn take_off(&mut self, sq: usize)
        requires
            old(self).players_ok(),
            sq < 64,
            old(self).board_arr[sq as int] is Some,
        ensures
            final(self).board_arr@ == old(self).board_arr@.update(sq as int, None),
            final(self).players_ok(),
            final(self).zobrist_hash == old(self).zobrist_hash ^ square_key(
                old(self).precomputed_items.zobrist,
                old(self).board_arr[sq as int],
                sq as int,
            ),
            final(self).hash_excess() == old(self).hash_excess(),
            final(self).en_passant_target == old(self).en_passant_target,
            final(self).same_meta(*old(self)),
    {
        reveal(players_match);
        let q = self.board_arr[sq].unwrap();
        let qc = q.color.index();
        let qt = q.piece_type.index();
        let ghost arr0 = self.board_arr@;
        let ghost w0 = self.player1;
        let ghost b0 = self.player2;
        let ghost h0 = self.zobrist_hash;
        let key = self.precomputed_items.zobrist.piece_sq[qc][qt][sq];
        self.zobrist_hash ^= key;
        if q.color == Color::White {
            self.player1.remove_piece(qt, sq);
        } else {
            self.player2.remove_piece(qt, sq);
        }
        self.board_arr[sq] = None;
        proof {
            let arr1 = arr0.update(sq as int, None);
            if q.color == Color::White {
                lemma_matches_remove(w0, self.player1, arr0, Color::White, q, sq as int);
                lemma_matches_other_squares(b0, arr0, arr1, Color::Black);
            } else {
                lemma_matches_remove(b0, self.player2, arr0, Color::Black, q, sq as int);
                lemma_matches_other_squares(w0, arr0, arr1, Color::White);
            }
            assert(self.board_arr@ =~= arr1);
            let z = self.precomputed_items.zobrist;
            lemma_board_key_update(z, arr0, sq as int, None);
            let bk0 = board_key(z, arr0);
            assert((h0 ^ key) ^ ((bk0 ^ key) ^ 0u64) == h0 ^ bk0) by (bit_vector);
        }
    }

    /// Moves the piece on `from` to the empty square `to` on the squares, its side's
    /// bitboards and own board, and takes its key on `from` out of the hash (its key on
    /// `to` is left for the caller).
    fn shift(&mut self, from: usize, to: usize)
        requires
            old(self).players_ok(),
            from < 64,
            to < 64,
            from != to,
            old(self).board_arr[from as int] is Some,
            old(self).board_arr[to as int] is None,
        ensures
            final(self).board_arr@ == old(self).board_arr@.update(from as int, None).update(
                to as int,
                old(self).board_arr[from as int],
            ),
            final(self).players_ok(),
            final(self).zobrist_hash == old(self).zobrist_hash ^ square_key(
                old(self).precomputed_items.zobrist,
                old(self).board_arr[from as int],
                from as int,
            ),
            final(self).hash_excess() == old(self).hash_excess() ^ square_key(
                old(self).precomputed_items.zobrist,
                old(self).board_arr[from as int],
                to as int,
            ),
            final(self).en_passant_target == old(self).en_passant_target,
            final(self).same_meta(*old(self)),
    {
        reveal(players_match);
        let p = self.board_arr[from].unwrap();
        let pc = p.color.index();
        let pt = p.piece_type.index();
        let ghost arr0 = self.board_arr@;
        let ghost w0 = self.player1;
        let ghost b0 = self.player2;
        let ghost h0 = self.zobrist_hash;
        let key = self.precomputed_items.zobrist.piece_sq[pc][pt][from];
        self.zobrist_hash ^= key;
        if p.color == Color::White {
            self.player1.move_piece(pt, from, to);
        } else {
            self.player2.move_piece(pt, from, to);
        }
        let moving = self.board_arr[from];
        self.board_arr[from] = None;
        self.board_arr[to] = moving;
        proof {
            let arr1 = arr0.update(from as int, None);
            let arr2 = arr1.update(to as int, Some(p));
            if p.color == Color::White {
                lemma_matches_move(w0, self.player1, arr0, Color::White, p, from as int, to as int);
                lemma_matches_other_squares(b0, arr0, arr2, Color::Black);
            } else {
                lemma_matches_move(b0, self.player2, arr0, Color::Black, p, from as int, to as int);
                lemma_matches_other_squares(w0, arr0, arr2, Color::White);
            }
            assert(self.board_arr@ =~= arr2);
            let z = self.precomputed_items.zobrist;
            lemma_board_key_update(z, arr0, from as int, None);
            lemma_board_key_update(z, arr1, to as int, Some(p));
            let bk0 = board_key(z, arr0);
            let kt = square_key(z, Some(p), to as int);
            assert((h0 ^ key) ^ ((((bk0 ^ key) ^ 0u64) ^ 0u64) ^ kt) == (h0 ^ bk0) ^ kt) by (bit_vector);
        }
    }

    /// Turns the pawn of side `c` on `sq` into a piece of kind `t` on the squares, its
    /// side's bitboards and own board, and in the hash.
    fn promote_on(&mut self, sq: usize, c: Color, t: PieceType)
        requires
            old(self).players_ok(),
            sq < 64,
            old(self).board_arr[sq as int] == Some(Piece { piece_type: PieceType::Pawn, color: c }),
        ensures
            final(self).board_arr@ == old(self).board_arr@.update(sq as int, Some(Piece { piece_type: t, color: c })),
            final(self).players_ok(),
            final(self).hash_excess() == old(self).hash_excess(),
            final(self).en_passant_target == old(self).en_passant_target,
            final(self).same_meta(*old(self)),
    {
        reveal(players_match);
        let ci = c.index();
        let ghost arr0 = self.board_arr@;
        let ghost w0 = self.player1;
        let ghost b0 = self.player2;
        let ghost h0 = self.zobrist_hash;
        let k_pawn = self.precomputed_items.zobrist.piece_sq[ci][0][sq];
        let k_new = self.precomputed_items.zobrist.piece_sq[ci][t.index()][sq];
        self.zobrist_hash ^= k_pawn;
        self.zobrist_hash ^= k_new;
        if c == Color::White {
            self.player1.promote(t, sq);
        } else {
            self.player2.promote(t, sq);
        }
        self.board_arr[sq] = Some(Piece { color: c, piece_type: t });
        proof {
            let np = Piece { piece_type: t, color: c };
            let arr1 = arr0.update(sq as int, Some(np));
            if c == Color::White {
                lemma_matches_promote(w0, self.player1, arr0, c, t, sq as int);
                lemma_matches_other_squares(b0, arr0, arr1, Color::Black);
            } else {
                lemma_matches_promote(b0, self.player2, arr0, c, t, sq as int);
                lemma_matches_other_squares(w0, arr0, arr1, Color::White);
            }
            assert(self.board_arr@ =~= arr1);
            let z = self.precomputed_items.zobrist;
            lemma_board_key_update(z, arr0, sq as int, Some(np));
            let bk0 = board_key(z, arr0);
            assert((h0 ^ k_pawn ^ k_new) ^ ((bk0 ^ k_pawn) ^ k_new) == h0 ^ bk0) by (bit_vector);
        }
    }

    /// Takes the pawn of the side other than `c` on `sq` off the board, as an en passant
    /// capture by `c` does; when `sq` is already empty, only its key goes out of the hash.
    fn take_en_passant(&mut self, sq: usize, c: Color)
        requires
            old(self).players_ok(),
            sq < 64,
            old(self).board_arr[sq as int] is None || old(self).board_arr[sq as int] == Some(
                Piece { piece_type: PieceType::Pawn, color: c.opp() },
            ),
        ensures
            final(self).board_arr@ == old(self).board_arr@.update(sq as int, None),
            final(self).players_ok(),
            final(self).hash_excess() == old(self).hash_excess() ^ (if old(self).board_arr[sq as int] is None {
                old(self).precomputed_items.zobrist.piece_sq[c.opp().idx()][0][sq as int]
            } else {
                0
            }),
            final(self).en_passant_target == old(self).en_passant_target,
            final(self).same_meta(*old(self)),
    {
        if self.board_arr[sq].is_some() {
            self.take_off(sq);
            proof {
                lemma_xor_swap(self.hash_excess(), 0, 0);
            }
        } else {
            let oc = c.opposite().index();
            let kc = self.precomputed_items.zobrist.piece_sq[oc][0][sq];
            let ghost h = self.zobrist_hash;
            let ghost bk = board_key(self.precomputed_items.zobrist, self.board_arr@);
            self.zobrist_hash ^= kc;
            proof {
                assert((h ^ kc) ^ bk == (h ^ bk) ^ kc) by (bit_vector);
                assert(self.board_arr@ =~= old(self).board_arr@.update(sq as int, None));
            }
        }
    }

    /// Carries out the piece moves of `mv` but a promotion: a capture on `to`, the move
    /// itself, the rook of a castle and the pawn taken en passant. The hash loses the
    /// keys of what leaves a square and gains those of the rook's new square.
    #[verifier::rlimit(100)]
    fn relocate(&mut self, mv: Move)
        requires
            old(self).update_ok(mv),
        ensures
            final(self).board_arr@ == moved_arr(
                old(self).board_arr@,
                old(self).en_passant_target,
                Move { promotion_piece_type: None, ..mv },
            ),
            final(self).players_ok(),
            final(self).en_passant_target == old(self).en_passant_target,
            final(self).hash_excess() == old(self).hash_excess() ^ square_key(
                old(self).precomputed_items.zobrist,
                old(self).board_arr[mv.from.idx()],
                mv.to.idx(),
            ) ^ ep_stray_key(
                old(self).precomputed_items.zobrist,
                old(self).board_arr@,
                old(self).en_passant_target,
                mv,
            ),
            final(self).same_meta(*old(self)),
    {
        let from_idx = mv.from.index() as usize;
        let to_idx = mv.to.index() as usize;
        let moving_piece = self.board_arr[from_idx].unwrap();
        let attacker_color = moving_piece.color;
        let ac = attacker_color.index();
        let ghost arr0 = self.board_arr@;
        let ghost ep0 = self.en_passant_target;
        let ghost z = self.precomputed_items.zobrist;
        let ghost x1 = self.hash_excess();
        let ghost kt = square_key(z, Some(moving_piece), to_idx as int);

        // A normal capture.
        if self.board_arr[to_idx].is_some() {
            self.take_off(to_idx);
        }
        // The moving piece leaves `from`; its key on `to` is the caller's.
        self.shift(from_idx, to_idx);
        let ghost x3 = self.hash_excess();
        assert(x3 == x1 ^ kt);

        // Castling also moves the rook.
        if let Some(castle) = mv.castle_option {
            let (rook_from, rook_to): (usize, usize) = match (castle, attacker_color) {
                (CastleOption::Kingside, Color::White) => (7, 5),
                (CastleOption::Kingside, Color::Black) => (63, 61),
                (CastleOption::Queenside, Color::White) => (0, 3),
                (CastleOption::Queenside, Color::Black) => (56, 59),
            };
            let ghost xr = self.hash_excess();
            self.shift(rook_from, rook_to);
            let krt = self.precomputed_items.zobrist.piece_sq[ac][3][rook_to];
            let ghost h = self.zobrist_hash;
            self.zobrist_hash ^= krt;
            proof {
                let bk = board_key(z, self.board_arr@);
                assert((h ^ krt) ^ bk == (h ^ bk) ^ krt) by (bit_vector);
                assert((xr ^ krt) ^ krt == xr) by (bit_vector);
            }
        }
        let ghost x4 = self.hash_excess();
        assert(x4 == x3);

        // An en passant capture removes the pawn behind the target.
        if moving_piece.piece_type == PieceType::Pawn && self.en_passant_target == Some(to_idx) {
            let captured_pawn_idx = if attacker_color == Color::White {
                to_idx - 8
            } else {
                to_idx + 8
            };
            proof {
                lemma_ep_square(arr0, ep0, attacker_color, to_idx as int);
            }
            self.take_en_passant(captured_pawn_idx, attacker_color);
        }
        proof {
            lemma_xor_swap(x4, 0, 0);
            assert(self.board_arr@ =~= moved_arr(arr0, ep0, Move { promotion_piece_type: None, ..mv }));
        }
    }

    /// Applies `mv` to the squares, both players' bitboards and own boards, the en passant
    /// target and the hash; castling rights, the cached side bitboards and the counters are
    /// left as they were.
    ///
    /// The hash changes as the key of the squares does, and also by the keys of the old
    /// and the new en passant file, the side-to-move key and `stray_keys`.
    ///
    /// Every caller hands it a move that `validate_move` has accepted, or that move on a
    /// copy of the board; `update_ok` states what such a move satisfies (a piece on `from`,
    /// promotions by pawns only, castles from the king's home square with the rook in place).
    #[verifier::rlimit(100)]
    pub fn update_board(&mut self, piece_moved: Move)
        requires
            old(self).update_ok(piece_moved),
        ensures
            final(self).board_arr@ == moved_arr(old(self).board_arr@, old(self).en_passant_target, piece_moved),
            final(self).players_ok(),
            final(self).tables_ok(),
            final(self).ep_ok(),
            final(self).en_passant_target == ep_after(old(self).board_arr@, piece_moved),
            final(self).hash_excess() == old(self).hash_excess() ^ ep_key(
                old(self).precomputed_items.zobrist,
                old(self).en_passant_target,
            ) ^ ep_key(old(self).precomputed_items.zobrist, final(self).en_passant_target)
                ^ old(self).precomputed_items.zobrist.side_to_move ^ stray_keys(
                old(self).precomputed_items.zobrist,
                old(self).board_arr@,
                old(self).en_passant_target,
                piece_moved,
            ),
            final(self).same_meta(*old(self)),
    {
        let from_idx = piece_moved.from.index() as usize;
        let to_idx = piece_moved.to.index() as usize;
        let moving_piece = self.board_arr[from_idx].unwrap();
        let attacker_color = moving_piece.color;
        let piece_type = moving_piece.piece_type;
        let ac = attacker_color.index();
        let pt = piece_type.index();
        let ghost arr0 = self.board_arr@;
        let ghost ep0 = self.en_passant_target;
        let ghost z = self.precomputed_items.zobrist;
        let ghost x0 = self.hash_excess();
        let ghost e0 = ep_key(z, ep0);
        let ghost side = z.side_to_move;
        let ghost kt = square_key(z, Some(moving_piece), to_idx as int);
        let ghost ph = ep_stray_key(z, arr0, ep0, piece_moved);

        // Hash: the old en passant file leaves, the side to move flips.
        let ghost h0 = self.zobrist_hash;
        if let Some(ep_sq) = self.en_passant_target {
            self.zobrist_hash ^= self.precomputed_items.zobrist.en_passant_file[ep_sq % 8];
        }
        self.zobrist_hash ^= self.precomputed_items.zobrist.side_to_move;
        let ghost x1 = self.hash_excess();
        proof {
            let bk0 = board_key(z, arr0);
            if ep0 is Some {
                assert(((h0 ^ e0) ^ side) ^ bk0 == ((h0 ^ bk0) ^ e0) ^ side) by (bit_vector);
            } else {
                assert((h0 ^ side) ^ bk0 == ((h0 ^ bk0) ^ 0u64) ^ side) by (bit_vector);
            }
        }

        self.relocate(piece_moved);
        let ghost x5 = self.hash_excess();

        // A double pawn push leaves a new en passant target.
        if piece_type == PieceType::Pawn {
            let diff = if from_idx > to_idx {
                from_idx - to_idx
            } else {
                to_idx - from_idx
            };
            if diff == 16 {
                let new_ep = if attacker_color == Color::White {
                    from_idx + 8
                } else {
                    from_idx - 8
                };
                let ke = self.precomputed_items.zobrist.en_passant_file[new_ep % 8];
                let ghost h = self.zobrist_hash;
                self.zobrist_hash ^= ke;
                self.en_passant_target = Some(new_ep);
                proof {
                    let bk = board_key(z, self.board_arr@);
                    assert((h ^ ke) ^ bk == (h ^ bk) ^ ke) by (bit_vector);
                }
            } else {
                self.en_passant_target = None;
            }
        } else {
            self.en_passant_target = None;
        }
        let ghost e1 = ep_key(z, self.en_passant_target);
        let ghost x6 = self.hash_excess();
        assert(x6 == x5 ^ e1) by {
            lemma_xor_swap(x5, 0, 0);
        }

        // A promotion replaces the pawn on `to`; otherwise the piece's key on `to` goes in.
        let ghost mut kt2: u64 = 0;
        if let Some(piece) = piece_moved.promotion_piece_type {
            self.promote_on(to_idx, attacker_color, piece);
        } else {
            let kd = self.precomputed_items.zobrist.piece_sq[ac][pt][to_idx];
            let ghost h = self.zobrist_hash;
            self.zobrist_hash ^= kd;
            proof {
                kt2 = kd;
                let bk = board_key(z, self.board_arr@);
                assert((h ^ kd) ^ bk == (h ^ bk) ^ kd) by (bit_vector);
            }
        }
        let ghost x7 = self.hash_excess();
        proof {
            assert(x7 == x6 ^ kt2);
            assert(self.board_arr@ =~= moved_arr(arr0, ep0, piece_moved));
            let st1: u64 = if piece_moved.promotion_piece_type is Some {
                kt
            } else {
                0
            };
            assert(st1 ^ kt2 == kt) by {
                lemma_xor_swap(kt, 0, 0);
                lemma_xor_swap(0, kt, 0);
            }
            assert(x7 == x0 ^ e0 ^ e1 ^ side ^ (st1 ^ ph)) by (bit_vector)
                requires
                    x1 == x0 ^ e0 ^ side,
                    x5 == x1 ^ kt ^ ph,
                    x6 == x5 ^ e1,
                    x7 == x6 ^ kt2,
                    st1 ^ kt2 == kt,
            ;
        }
    }
}

/// The square of the pawn an en passant capture by `c` onto the target takes lies on the
/// board, and holds that pawn or nothing.
pub proof fn lemma_ep_square(arr: Seq<Option<Piece>>, ep: Option<usize>, c: Color, to: int)
    requires
        ep == Some(to as usize),
        0 <= to < 64,
        match ep {
            Some(e) => {
                ||| (16 <= e < 24 && arr[e - 8] is None && arr[e as int] is None && arr[e + 8] == Some(
                    Piece { piece_type: PieceType::Pawn, color: Color::White },
                ))
                ||| (40 <= e < 48 && arr[e + 8] is None && arr[e as int] is None && arr[e - 8] == Some(
                    Piece { piece_type: PieceType::Pawn, color: Color::Black },
                ))
            },
            None => true,
        },
    ensures
        0 <= ep_capture_sq(c, to) < 64,
        arr[ep_capture_sq(c, to)] is None || arr[ep_capture_sq(c, to)] == Some(
            Piece { piece_type: PieceType::Pawn, color: c.opp() },
        ),
        arr[to] is None,
{
}

/// White's player `w` and Black's player `b` describe exactly the pieces on `arr`.
#[verifier::opaque]
pub open spec fn players_match(w: Player, b: Player, arr: Seq<Option<Piece>>) -> bool {
    &&& w.matches(arr, Color::White)
    &&& b.matches(arr, Color::Black)
}

/// The key of the pawn an en passant capture by `mv` removes, when its square is already
/// empty.
pub open spec fn ep_stray_key(z: ZobristTable, arr: Seq<Option<Piece>>, ep: Option<usize>, mv: Move) -> u64 {
    let to = mv.to.idx();
    let c = arr[mv.from.idx()]->0.color;
    if is_ep_capture(arr, ep, mv) && arr[ep_capture_sq(c, to)] is None {
        z.piece_sq[c.opp().idx()][0][ep_capture_sq(c, to)]
    } else {
        0
    }
}


impl GameBoard {
    /// The castling rights after a move from `from` to `to`: a move from a king's home
    /// square loses both of that side's rights; a move from or onto a rook's home corner
    /// loses that corner's right.
    pub open spec fn rights_after(&self, from: int, to: int) -> (bool, bool, bool, bool) {
        (
            self.white_kingside && from != 4 && from != 7 && to != 7,
            self.white_queenside && from != 4 && from != 0 && to != 0,
            self.black_kingside && from != 60 && from != 63 && to != 63,
            self.black_queenside && from != 60 && from != 56 && to != 56,
        )
    }

    /// The key of the castling rights held.
    pub open spec fn rights_key(&self) -> u64 {
        castling_key(
            self.precomputed_items.zobrist,
            self.white_kingside,
            self.white_queenside,
            self.black_kingside,
            self.black_queenside,
        )
    }

    /// Withdraws the castling rights that `piece_moved` loses (see `rights_after`) and takes
    /// the key of each lost right out of the hash.
    pub fn update_castling(&mut self, piece_moved: Move)
        ensures
            ({
                let r = old(self).rights_after(piece_moved.from.idx(), piece_moved.to.idx());
                &&& final(self).white_kingside == r.0
                &&& final(self).white_queenside == r.1
                &&& final(self).black_kingside == r.2
                &&& final(self).black_queenside == r.3
            }),
            final(self).zobrist_hash == old(self).zobrist_hash ^ old(self).rights_key() ^ final(self).rights_key(),
            final(self).board_arr == old(self).board_arr,
            final(self).player1 == old(self).player1,
            final(self).player2 == old(self).player2,
            final(self).en_passant_target == old(self).en_passant_target,
            final(self).precomputed_items == old(self).precomputed_items,
            final(self).white_pieces == old(self).white_pieces,
            final(self).black_pieces == old(self).black_pieces,
            final(self).combined_pieces == old(self).combined_pieces,
            final(self).in_check == old(self).in_check,
            final(self).white_pins == old(self).white_pins,
            final(self).black_pins == old(self).black_pins,
            final(self).game_result == old(self).game_result,
            final(self).last_move == old(self).last_move,
            final(self).halfmove_clock == old(self).halfmove_clock,
            final(self).position_history@ == old(self).position_history@,
    {
        let from_idx: u8 = piece_moved.from.into();
        let to_idx: u8 = piece_moved.to.into();

        // The rights before the move, for the hash.
        let old_wk = self.white_kingside;
        let old_wq = self.white_queenside;
        let old_bk = self.black_kingside;
        let old_bq = self.black_queenside;

        if from_idx == 4 {
            self.white_kingside = false;
            self.white_queenside = false;
        } else if from_idx == 60 {
            self.black_kingside = false;
            self.black_queenside = false;
        }
        if from_idx == 0 || to_idx == 0 {
            self.white_queenside = false;
        }
        if from_idx == 7 || to_idx == 7 {
            self.white_kingside = false;
        }
        if from_idx == 56 || to_idx == 56 {
            self.black_queenside = false;
        }
        if from_idx == 63 || to_idx == 63 {
            self.black_kingside = false;
        }

        // A right held before and lost now takes its key out.
        let ghost h0 = self.zobrist_hash;
        let c0 = self.precomputed_items.zobrist.castling[0];
        let c1 = self.precomputed_items.zobrist.castling[1];
        let c2 = self.precomputed_items.zobrist.castling[2];
        let c3 = self.precomputed_items.zobrist.castling[3];
        if old_wk && !self.white_kingside {
            self.zobrist_hash ^= c0;
        }
        let ghost h1 = self.zobrist_hash;
        if old_wq && !self.white_queenside {
            self.zobrist_hash ^= c1;
        }
        let ghost h2 = self.zobrist_hash;
        if old_bk && !self.black_kingside {
            self.zobrist_hash ^= c2;
        }
        let ghost h3 = self.zobrist_hash;
        if old_bq && !self.black_queenside {
            self.zobrist_hash ^= c3;
        }
        proof {
            let h4 = self.zobrist_hash;
            let a0: u64 = if old_wk { c0 } else { 0 };
            let a1: u64 = if old_wq { c1 } else { 0 };
            let a2: u64 = if old_bk { c2 } else { 0 };
            let a3: u64 = if old_bq { c3 } else { 0 };
            let b0: u64 = if self.white_kingside { c0 } else { 0 };
            let b1: u64 = if self.white_queenside { c1 } else { 0 };
            let b2: u64 = if self.black_kingside { c2 } else { 0 };
            let b3: u64 = if self.black_queenside { c3 } else { 0 };
            lemma_right_step(h0, h1, a0, b0);
            lemma_right_step(h1, h2, a1, b1);
            lemma_right_step(h2, h3, a2, b2);
            lemma_right_step(h3, h4, a3, b3);
            assert(h4 == h0 ^ (a0 ^ a1 ^ a2 ^ a3) ^ (b0 ^ b1 ^ b2 ^ b3)) by (bit_vector)
                requires
                    h1 == h0 ^ (a0 ^ b0),
                    h2 == h1 ^ (a1 ^ b1),
                    h3 == h2 ^ (a2 ^ b2),
                    h4 == h3 ^ (a3 ^ b3),
            ;
        }
    }
}

/// Or-ing nothing leaves a bitboard as it was.
proof fn lemma_or_zero(a: u64)
    ensures
        a | 0 == a,
{
    assert(a | 0 == a) by (bit_vector);
}

/// One right's step of the hash: the key goes out when the right was held and is lost,
/// which is the XOR of the key for the right before, `a`, and after, `b`.
proof fn lemma_right_step(h: u64, h2: u64, a: u64, b: u64)
    requires
        (a == b && h2 == h) || (b == 0 && h2 == h ^ a),
    ensures
        h2 == h ^ (a ^ b),
{
    lemma_xor_swap(a, 0, 0);
    lemma_xor_swap(h, 0, 0);
}


/// The kind bitboards of side `c` on `arr`, indexed like a player's.
pub open spec fn bbs_of(arr: Seq<Option<Piece>>, c: Color) -> Seq<u64> {
    Seq::new(6, |t: int| piece_bb(arr, Piece { piece_type: PieceType::at(t), color: c }))
}

/// Whether `c`'s king is attacked once `mv` is made on `arr` (en passant target `ep`):
/// the attackers of the lowest square holding `c`'s king, with the bitboards of the
/// position after the move.
pub open spec fn king_attacked_after(arr: Seq<Option<Piece>>, ep: Option<usize>, mv: Move, c: Color) -> bool {
    let arr2 = moved_arr(arr, ep, mv);
    let w = side_bb(arr2, Color::White);
    let b = side_bb(arr2, Color::Black);
    let king = lowest(piece_bb(arr2, Piece { piece_type: PieceType::King, color: c }));
    attackers_spec(bbs_of(arr2, c.opp()), ep_after(arr, mv), king, c.opp(), w | b, w, b) != 0
}

/// The mask-based target squares of a piece are never its own square nor a square of its
/// side, and a pawn moves two squares only forward from its starting rank over an empty
/// square.
pub proof fn lemma_mask_target(
    arr: Seq<Option<Piece>>,
    ep: Option<usize>,
    from: int,
    to: int,
    c: Color,
    t: PieceType,
)
    requires
        arr.len() == 64,
        0 <= from < 64,
        0 <= to < 64,
        arr[from] == Some(Piece { piece_type: t, color: c }),
        ep matches Some(e) ==> e < 64 && arr[e as int] is None,
        is_set(
            move_mask_spec(
                ep,
                from,
                c,
                t,
                side_bb(arr, Color::White) | side_bb(arr, Color::Black),
                side_bb(arr, Color::White),
                side_bb(arr, Color::Black),
            ),
            to,
        ),
    ensures
        from != to,
        !is_color(arr[to], c),
        t == PieceType::Pawn && (from - to == 16 || to - from == 16) ==> if c == Color::White {
            8 <= from < 16 && to == from + 16 && arr[from + 8] is None
        } else {
            48 <= from < 56 && to == from - 16 && arr[from - 8] is None
        },
        t == PieceType::Pawn && c == Color::White ==> to / 8 != 0,
        t == PieceType::Pawn && c == Color::Black ==> to / 8 != 7,
{
    broadcast use crate::game::playerobj::group_board_bb;
    let w = side_bb(arr, Color::White);
    let b = side_bb(arr, Color::Black);
    let board = w | b;
    assert(is_set(w, from) || is_set(b, from));
    assert(is_set(w, to) == is_color(arr[to], Color::White));
    assert(is_set(b, to) == is_color(arr[to], Color::Black));
    if t == PieceType::Pawn {
        crate::geometry::lemma_pawn_targets(from, to);
        let enemy = if c == Color::White {
            b
        } else {
            w
        };
        let dir: int = if c == Color::White {
            8
        } else {
            -8
        };
        let one = from + dir;
        let two = from + 2 * dir;
        if 0 <= one < 64 {
            assert(is_set(board, one) == (arr[one] is Some));
        }
        if let Some(e) = ep {
            crate::geometry::lemma_pawn_targets(from, e as int);
            assert(is_set(board, e as int) == (arr[e as int] is Some));
        }
    }
}

impl GameBoard {
    /// The cached side bitboards are those of the players.
    pub open spec fn caches_ok(&self) -> bool {
        &&& self.white_pieces == self.player1.pieces
        &&& self.black_pieces == self.player2.pieces
        &&& self.combined_pieces == self.white_pieces | self.black_pieces
    }

    /// A castling right still held has the king and that rook on their home squares.
    pub open spec fn castling_ok(&self) -> bool {
        let arr = self.board_arr@;
        let wk = Some(Piece { piece_type: PieceType::King, color: Color::White });
        let bk = Some(Piece { piece_type: PieceType::King, color: Color::Black });
        let wr = Some(Piece { piece_type: PieceType::Rook, color: Color::White });
        let br = Some(Piece { piece_type: PieceType::Rook, color: Color::Black });
        &&& self.white_kingside ==> arr[4] == wk && arr[7] == wr
        &&& self.white_queenside ==> arr[4] == wk && arr[0] == wr
        &&& self.black_kingside ==> arr[60] == bk && arr[63] == br
        &&& self.black_queenside ==> arr[60] == bk && arr[56] == br
    }

    /// The board is consistent: the lookup tables, the players, the en passant target,
    /// the cached side bitboards and the castling rights agree with the squares.
    pub open spec fn wf(&self) -> bool {
        &&& self.tables_ok()
        &&& self.players_ok()
        &&& self.ep_ok()
        &&& self.caches_ok()
        &&& self.castling_ok()
    }

    /// The castling rights: white kingside, white queenside, black kingside, black queenside.
    pub open spec fn rights(&self) -> (bool, bool, bool, bool) {
        (self.white_kingside, self.white_queenside, self.black_kingside, self.black_queenside)
    }

    /// The castling right of side `c` towards `o`.
    pub open spec fn right(&self, c: Color, o: CastleOption) -> bool {
        right_in(self.rights(), c, o)
    }

    /// Whether `color` may castle towards `o` (see `castle_verdict`).
    pub open spec fn valid_castle_spec(&self, color: Color, o: CastleOption, board: u64, white: u64, black: u64) -> bool {
        castle_verdict(
            self.en_passant_target,
            self.rights(),
            self.player1.pieces_bb@,
            self.player2.pieces_bb@,
            color,
            o,
            board,
            white,
            black,
        )
    }

    /// `validate_move`'s verdict (see `move_verdict`).
    pub open spec fn valid_move_spec(&self, mv: Move, color: Color, board: u64, white: u64, black: u64) -> bool {
        move_verdict(
            self.board_arr@,
            self.en_passant_target,
            self.rights(),
            self.player1.pieces_bb@,
            self.player2.pieces_bb@,
            mv,
            color,
            board,
            white,
            black,
        )
    }

    /// A copy: every field the same, the position history with the same entries.
    pub open spec fn copy_of(&self, o: GameBoard) -> bool {
        &&& self.same_meta(o)
        &&& self.player1 == o.player1
        &&& self.player2 == o.player2
        &&& self.board_arr == o.board_arr
        &&& self.en_passant_target == o.en_passant_target
        &&& self.zobrist_hash == o.zobrist_hash
    }

    /// Whether no square of `castle_empty_spec(ci, oi)` is occupied in `board`.
    fn castle_squares_empty(&self, ci: usize, oi: usize, board: Bitboard) -> (r: bool)
        requires
            self.tables_ok(),
            ci < 2,
            oi < 2,
        ensures
            r == forall|k: int| 0 <= k < 64 && is_set(castle_empty_spec(ci as int, oi as int), k) ==> !is_set(board, k),
    {
        let empty = self.precomputed_items.castle_empty_squares[ci][oi];
        let mut it = BitIterator::new(empty);
        let ghost all = squares_of(empty);
        let ghost mut i: int = 0;
        proof {
            lemma_squares_of(empty);
        }
        while it.bits != 0
            invariant
                0 <= i <= all.len(),
                all == squares_of(empty),
                squares_of(it.bits) == all.skip(i),
                forall|j: int| 0 <= j < i ==> !is_set(board, #[trigger] all[j]),
                forall|j: int| 0 <= j < all.len() ==> 0 <= #[trigger] all[j] < 64 && is_set(empty, all[j]),
                empty == castle_empty_spec(ci as int, oi as int),
            decreases it.bits,
        {
            let ghost b = it.bits;
            proof {
                lemma_squares_step(b, all, i);
                lemma_lowest(b);
            }
            let sq = it.next_square().unwrap();
            if board & (1u64 << (sq as u64)) != 0 {
                proof {
                    assert(is_set(empty, all[i]));
                    assert(is_set(board, sq as int));
                    assert(0 <= sq < 64 && is_set(castle_empty_spec(ci as int, oi as int), sq as int));
                }
                return false;
            }
            proof {
                i = i + 1;
            }
        }
        proof {
            assert(squares_of(0u64).len() == 0);
            assert forall|k: int| 0 <= k < 64 && is_set(empty, k) implies !is_set(board, k) by {
                assert(all.contains(k));
            }
        }
        true
    }

    /// Whether no square of `castle_path_spec(c, o)` is attacked by the side other than `c`.
    fn castle_path_safe(
        &self,
        color: Color,
        castle_option: CastleOption,
        board: Bitboard,
        white_pieces: Bitboard,
        black_pieces: Bitboard,
    ) -> (r: bool)
        requires
            self.tables_ok(),
        ensures
            r == forall|k: int|
                0 <= k < 64 && is_set(castle_path_spec(color.idx(), castle_option.idx()), k) ==> attackers_spec(
                    self.player_of(color.opp()).pieces_bb@,
                    self.en_passant_target,
                    k,
                    color.opp(),
                    board,
                    white_pieces,
                    black_pieces,
                ) == 0,
    {
        let opp_color = color.opposite();
        let path = self.precomputed_items.castle_path_squares[color.index()][castle_option.index()];
        let mut it = BitIterator::new(path);
        let ghost all = squares_of(path);
        let ghost mut i: int = 0;
        proof {
            lemma_squares_of(path);
        }
        while it.bits != 0
            invariant
                0 <= i <= all.len(),
                all == squares_of(path),
                squares_of(it.bits) == all.skip(i),
                forall|j: int| 0 <= j < all.len() ==> 0 <= #[trigger] all[j] < 64 && is_set(path, all[j]),
                forall|j: int|
                    0 <= j < i ==> attackers_spec(
                        self.player_of(opp_color).pieces_bb@,
                        self.en_passant_target,
                        #[trigger] all[j],
                        opp_color,
                        board,
                        white_pieces,
                        black_pieces,
                    ) == 0,
                self.tables_ok(),
                opp_color == color.opp(),
                path == castle_path_spec(color.idx(), castle_option.idx()),
            decreases it.bits,
        {
            let ghost b = it.bits;
            proof {
                lemma_squares_step(b, all, i);
                lemma_lowest(b);
            }
            let sq = it.next_square().unwrap();
            if self.get_attackers(sq, opp_color, board, white_pieces, black_pieces) != 0 {
                proof {
                    assert(is_set(path, all[i]));
                    assert(0 <= sq < 64 && is_set(castle_path_spec(color.idx(), castle_option.idx()), sq as int));
                }
                return false;
            }
            proof {
                i = i + 1;
            }
        }
        proof {
            assert(squares_of(0u64).len() == 0);
            assert forall|k: int| 0 <= k < 64 && is_set(path, k) implies attackers_spec(
                self.player_of(color.opp()).pieces_bb@,
                self.en_passant_target,
                k,
                color.opp(),
                board,
                white_pieces,
                black_pieces,
            ) == 0 by {
                assert(all.contains(k));
            }
        }
        true
    }

    /// Whether the king of `color` is safe after `mv`, made on a copy of the board.
    fn king_safe_after(&self, mv: Move, color: Color) -> (r: bool)
        requires
            self.update_ok(mv),
            is_color(self.board_arr[mv.from.idx()], color),
            self.player_of(color).pieces_bb[5] != 0,
        ensures
            r == !king_attacked_after(self.board_arr@, self.en_passant_target, mv, color),
    {
        let mut temp_state = self.clone();
        let ghost arr = self.board_arr@;
        temp_state.update_board(mv);
        let opponent_color = if color == Color::White {
            Color::Black
        } else {
            Color::White
        };
        // The occupancy after the move.
        let temp_white = temp_state.player1.pieces;
        let temp_black = temp_state.player2.pieces;
        let temp_combined = temp_white | temp_black;
        // The king may have moved.
        let king_bits = if color == Color::White {
            temp_state.player1.pieces_bb[5]
        } else {
            temp_state.player2.pieces_bb[5]
        };
        proof {
            lemma_king_stays(self, mv, color);
            reveal(players_match);
            lemma_lowest(king_bits);
        }
        let temp_king_sq = king_bits.trailing_zeros() as usize;
        let attackers = temp_state.get_attackers(temp_king_sq, opponent_color, temp_combined, temp_white, temp_black);
        proof {
            reveal(players_match);
            let arr2 = moved_arr(arr, self.en_passant_target, mv);
            assert(temp_state.player_of(opponent_color).pieces_bb@ =~= bbs_of(arr2, color.opp()));
        }
        attackers == 0
    }

    /// Whether `piece_moved` is a move `color` may make: see `valid_move_spec`. A promotion
    /// piece given with a move that is no pawn reaching the last rank is left out (see
    /// `promotion_kept`).
    pub fn validate_move(
        &self,
        piece_moved: Move,
        color: Color,
        board: Bitboard,
        white_pieces: Bitboard,
        black_pieces: Bitboard,
    ) -> (r: bool)
        requires
            self.tables_ok(),
            self.players_ok(),
            self.ep_ok(),
            piece_moved.castle_option is None ==> {
                &&& white_pieces == self.player1.pieces
                &&& black_pieces == self.player2.pieces
                &&& board == white_pieces | black_pieces
                &&& self.player_of(color).pieces_bb[5] != 0
                &&& is_color(self.board_arr[piece_moved.from.idx()], color)
                &&& piece_moved.promotion_piece_type == Some(PieceType::King) ==> promotion_kept(
                    self.board_arr@,
                    piece_moved,
                ) == piece_moved || self.board_arr[piece_moved.from.idx()]->0.piece_type == PieceType::King
            },
        ensures
            r == self.valid_move_spec(
                promotion_kept(self.board_arr@, piece_moved),
                color,
                board,
                white_pieces,
                black_pieces,
            ),
    {
        reveal(move_verdict);
        let (castle_kingside, castle_queenside) = if color == Color::White {
            (self.white_kingside, self.white_queenside)
        } else {
            (self.black_kingside, self.black_queenside)
        };
        let from_idx = piece_moved.from.index() as usize;
        let to_idx = piece_moved.to.index() as usize;

        // A castle: the right, empty squares, and no attacked square on the king's path.
        if let Some(castle_option) = piece_moved.castle_option {
            match castle_option {
                CastleOption::Kingside => {
                    if !castle_kingside {
                        return false;
                    }
                },
                CastleOption::Queenside => {
                    if !castle_queenside {
                        return false;
                    }
                },
            }
            if !self.castle_squares_empty(color.index(), castle_option.index(), board) {
                return false;
            }
            return self.castle_path_safe(color, castle_option, board, white_pieces, black_pieces);
        }

        // Any other move: a square of the piece's mask, and the king safe afterwards.
        let piece_type = self.board_arr[from_idx].unwrap().piece_type;
        let mask = self.get_move_mask(from_idx, color, piece_type, board, white_pieces, black_pieces);
        if mask & (1u64 << (to_idx as u64)) == 0 {
            return false;
        }
        // Only a pawn reaching the last rank promotes.
        let mv = if piece_moved.promotion_piece_type.is_some() && !(piece_type == PieceType::Pawn && (to_idx / 8 == 7
            || to_idx / 8 == 0)) {
            Move {
                from: piece_moved.from,
                to: piece_moved.to,
                promotion_piece_type: None,
                castle_option: None,
                en_passant: piece_moved.en_passant,
            }
        } else {
            piece_moved
        };
        proof {
            reveal(players_match);
            lemma_mask_target(self.board_arr@, self.en_passant_target, from_idx as int, to_idx as int, color, piece_type);
        }
        self.king_safe_after(mv, color)
    }
}

/// The move `mv` as made on squares `arr`: a promotion piece given with a move that is no
/// pawn reaching the last rank is left out.
pub open spec fn promotion_kept(arr: Seq<Option<Piece>>, mv: Move) -> Move {
    if mv.castle_option is None && mv.promotion_piece_type is Some && !(arr[mv.from.idx()]->0.piece_type
        == PieceType::Pawn && (mv.to.idx() / 8 == 7 || mv.to.idx() / 8 == 0)) {
        Move { promotion_piece_type: None, ..mv }
    } else {
        mv
    }
}

impl Clone for GameBoard {
    /// A copy sharing the lookup tables.
    fn clone(&self) -> (r: Self)
        ensures
            r.copy_of(*self),
    {
        GameBoard {
            player1: self.player1,
            player2: self.player2,
            board_arr: self.board_arr,
            white_pieces: self.white_pieces,
            precomputed_items: share_tables(&self.precomputed_items),
            black_pieces: self.black_pieces,
            combined_pieces: self.combined_pieces,
            in_check: self.in_check,
            white_pins: self.white_pins,
            black_pins: self.black_pins,
            game_result: self.game_result,
            white_kingside: self.white_kingside,
            white_queenside: self.white_queenside,
            black_kingside: self.black_kingside,
            black_queenside: self.black_queenside,
            last_move: self.last_move,
            en_passant_target: self.en_passant_target,
            halfmove_clock: self.halfmove_clock,
            position_history: self.position_history.clone(),
            zobrist_hash: self.zobrist_hash,
        }
    }
}

/// `Arc::clone`: another handle to the same lookup tables.
#[verifier::external_body]
fn share_tables(t: &Arc<PrecomputedItems>) -> (r: Arc<PrecomputedItems>)
    ensures
        r == *t,
{
    Arc::clone(t)
}

/// The mover's king is still on the board after a move by one of its pieces that
/// `update_board` can make.
pub proof fn lemma_king_stays(g: &GameBoard, mv: Move, c: Color)
    requires
        g.update_ok(mv),
        is_color(g.board_arr[mv.from.idx()], c),
        g.player_of(c).pieces_bb[5] != 0,
    ensures
        piece_bb(
            moved_arr(g.board_arr@, g.en_passant_target, mv),
            Piece { piece_type: PieceType::King, color: c },
        ) != 0,
{
    broadcast use crate::game::playerobj::group_board_bb;
    reveal(players_match);
    let arr = g.board_arr@;
    let kp = Piece { piece_type: PieceType::King, color: c };
    let kb = piece_bb(arr, kp);
    assert(g.player_of(c).pieces_bb[5] == kb);
    lemma_lowest(kb);
    let k = lowest(kb);
    assert(arr[k] == Some(kp));
    let arr2 = moved_arr(arr, g.en_passant_target, mv);
    let from = mv.from.idx();
    let to = mv.to.idx();
    if k == from {
        assert(arr2[to] == Some(kp));
        assert(is_set(piece_bb(arr2, kp), to));
    } else {
        if is_ep_capture(arr, g.en_passant_target, mv) {
            lemma_ep_square(arr, g.en_passant_target, c, to);
        }
        assert(arr2[k] == Some(kp));
        assert(is_set(piece_bb(arr2, kp), k));
    }
    lemma_is_set_zero(k);
}


/// The pin that a slider of the other side on `s` makes against the king on `king_sq`:
/// the one piece between them, when there is exactly one and it is one of `friendly`.
pub open spec fn pin_of(king_sq: int, s: int, board: u64, friendly: u64) -> u64 {
    let path = between_spec(king_sq, s);
    let blockers = path & board;
    if path != 0 && popcount(blockers) == 1 && blockers & friendly != 0 {
        blockers
    } else {
        0
    }
}

/// The pins made by the sliders on `sliders` (see `pin_of`), together.
pub open spec fn pins_over(king_sq: int, sliders: Seq<int>, board: u64, friendly: u64) -> u64
    decreases sliders.len(),
{
    if sliders.len() == 0 {
        0
    } else {
        pins_over(king_sq, sliders.drop_last(), board, friendly) | pin_of(king_sq, sliders.last(), board, friendly)
    }
}

impl GameBoard {
    /// The king bitboard of side `c`.
    pub open spec fn king_bb(&self, c: Color) -> u64 {
        self.player_of(c).pieces_bb[5]
    }

    /// The pieces the pins of side `c` are measured against: its king, rooks, bishops and
    /// queens of the other side.
    pub open spec fn pinners(&self, c: Color) -> u64 {
        let o = self.player_of(c.opp());
        o.pieces_bb[5] | o.pieces_bb[3] | o.pieces_bb[2] | o.pieces_bb[4]
    }

    /// The pins of side `color`, as `calculate_pins` computes them.
    pub open spec fn pins_spec(&self, color: Color, board: u64, white: u64, black: u64) -> u64 {
        let friendly = if color == Color::White {
            white
        } else {
            black
        };
        pins_over(lowest(self.king_bb(color)), squares_of(self.pinners(color)), board, friendly)
    }

    /// The king bitboard of side `color`.
    fn king_bits(&self, color: Color) -> (r: u64)
        ensures
            r == self.king_bb(color),
    {
        let player = if color == Color::White {
            &self.player1
        } else {
            &self.player2
        };
        player.pieces_bb[5]
    }

    /// The king bitboard of side `color`.
    pub fn get_king_sq(&mut self, color: Color) -> (r: u64)
        ensures
            r == old(self).king_bb(color),
            *final(self) == *old(self),
    {
        self.king_bits(color)
    }

    /// Records the pins of side `color` (see `pins_spec`) as its pin bitboard.
    pub fn calculate_pins(&mut self, color: Color, board: Bitboard, white_pieces: Bitboard, black_pieces: Bitboard)
        requires
            old(self).tables_ok(),
            old(self).king_bb(color) != 0,
        ensures
            color == Color::White ==> final(self).white_pins == old(self).pins_spec(color, board, white_pieces, black_pieces)
                && final(self).black_pins == old(self).black_pins,
            color == Color::Black ==> final(self).black_pins == old(self).pins_spec(color, board, white_pieces, black_pieces)
                && final(self).white_pins == old(self).white_pins,
            final(self).board_arr == old(self).board_arr,
            final(self).player1 == old(self).player1,
            final(self).player2 == old(self).player2,
            final(self).en_passant_target == old(self).en_passant_target,
            final(self).precomputed_items == old(self).precomputed_items,
            final(self).white_pieces == old(self).white_pieces,
            final(self).black_pieces == old(self).black_pieces,
            final(self).combined_pieces == old(self).combined_pieces,
            final(self).in_check == old(self).in_check,
            final(self).game_result == old(self).game_result,
            final(self).white_kingside == old(self).white_kingside,
            final(self).white_queenside == old(self).white_queenside,
            final(self).black_kingside == old(self).black_kingside,
            final(self).black_queenside == old(self).black_queenside,
            final(self).last_move == old(self).last_move,
            final(self).halfmove_clock == old(self).halfmove_clock,
            final(self).position_history@ == old(self).position_history@,
            final(self).zobrist_hash == old(self).zobrist_hash,
    {
        let (king_bits, friendly_bits, enemy_sliders) = match color {
            Color::White => (
                self.player1.pieces_bb[5],
                white_pieces,
                self.player2.pieces_bb[5] | self.player2.pieces_bb[3] | self.player2.pieces_bb[2]
                    | self.player2.pieces_bb[4],
            ),
            Color::Black => (
                self.player2.pieces_bb[5],
                black_pieces,
                self.player1.pieces_bb[5] | self.player1.pieces_bb[3] | self.player1.pieces_bb[2]
                    | self.player1.pieces_bb[4],
            ),
        };
        proof {
            lemma_lowest(king_bits);
        }
        let king_sq = king_bits.trailing_zeros() as usize;

        // Only sliders on a line with the king can pin; count the pieces between.
        let mut pin_mask = 0u64;
        let mut it = BitIterator::new(enemy_sliders);
        let ghost all = squares_of(enemy_sliders);
        let ghost mut i: int = 0;
        proof {
            lemma_squares_of(enemy_sliders);
        }
        while it.bits != 0
            invariant
                0 <= i <= all.len(),
                all == squares_of(enemy_sliders),
                squares_of(it.bits) == all.skip(i),
                forall|j: int| 0 <= j < all.len() ==> 0 <= #[trigger] all[j] < 64,
                pin_mask == pins_over(king_sq as int, all.take(i), board, friendly_bits),
                king_sq < 64,
                self.tables_ok(),
            decreases it.bits,
        {
            let ghost b = it.bits;
            proof {
                lemma_squares_step(b, all, i);
                lemma_lowest(b);
            }
            let attacker_sq = it.next_square().unwrap();
            let path = self.precomputed_items.rays[king_sq][attacker_sq];
            let ghost before = pin_mask;
            // Adjacent or unaligned sliders leave no path: they make no pin.
            if path != 0 {
                let blockers = path & board;
                if count_ones(blockers) == 1 {
                    if (blockers & friendly_bits) != 0 {
                        pin_mask |= blockers;
                    }
                }
            }
            proof {
                assert(all.take(i + 1).drop_last() =~= all.take(i));
                let p = pin_of(king_sq as int, attacker_sq as int, board, friendly_bits);
                lemma_or_zero(before);
                i = i + 1;
            }
        }
        proof {
            assert(squares_of(0u64).len() == 0);
            assert(all.take(i) =~= all);
        }
        match color {
            Color::White => self.white_pins = pin_mask,
            Color::Black => self.black_pins = pin_mask,
        }
    }
}


impl GameBoard {
    /// Whether side `color` is stalemated (see `stalemate_spec`): not in check and without
    /// a legal move. `combined_bits`, `friendly_bits` and `opponent_bits` are the board's
    /// own occupancy, `color`'s pieces and the other side's; the verdict does not depend
    /// on `pins`, since each move is tried on the board itself.
    pub fn calculate_stalemate(
        &mut self,
        color: Color,
        opp_color: Color,
        combined_bits: u64,
        friendly_bits: u64,
        opponent_bits: u64,
        pins: u64,
    ) -> (r: bool)
        requires
            old(self).wf(),
            old(self).king_bb(color) != 0,
            opp_color == color.opp(),
            combined_bits == old(self).combined_pieces,
            friendly_bits == old(self).player_of(color).pieces,
            opponent_bits == old(self).player_of(opp_color).pieces,
        ensures
            r == old(self).stalemate_spec(color),
            *final(self) == *old(self),
    {
        if self.king_attackers(color) != 0 {
            return false;
        }
        proof {
            reveal(movegen_ready);
        }
        !has_legal_move(self, color)
    }
}


/// The right of side `c` towards `o` among rights `r`: white kingside, white queenside,
/// black kingside, black queenside.
pub open spec fn right_in(r: (bool, bool, bool, bool), c: Color, o: CastleOption) -> bool {
    match (c, o) {
        (Color::White, CastleOption::Kingside) => r.0,
        (Color::White, CastleOption::Queenside) => r.1,
        (Color::Black, CastleOption::Kingside) => r.2,
        (Color::Black, CastleOption::Queenside) => r.3,
    }
}

/// Whether `color` may castle towards `o` with rights `r` and kind bitboards `w` (White's)
/// and `b` (Black's): the right is held, the squares between king and rook are empty in
/// `board`, and no square of the king's path is attacked by the other side (with the
/// given bitboards).
pub open spec fn castle_verdict(
    ep: Option<usize>,
    r: (bool, bool, bool, bool),
    w: Seq<u64>,
    b: Seq<u64>,
    color: Color,
    o: CastleOption,
    board: u64,
    white: u64,
    black: u64,
) -> bool {
    let opp = if color == Color::White {
        b
    } else {
        w
    };
    &&& right_in(r, color, o)
    &&& forall|k: int| 0 <= k < 64 && is_set(castle_empty_spec(color.idx(), o.idx()), k) ==> !is_set(board, k)
    &&& forall|k: int|
        0 <= k < 64 && is_set(castle_path_spec(color.idx(), o.idx()), k) ==> attackers_spec(
            opp,
            ep,
            k,
            color.opp(),
            board,
            white,
            black,
        ) == 0
}

/// `validate_move`'s verdict on `arr` with en passant target `ep`, rights `r` and kind
/// bitboards `w` (White's) and `b` (Black's). A castle needs what `castle_verdict` says. Any other move
/// needs `to` among the mask squares of the piece on `from` and leaves the mover's king
/// unattacked in the position after it.
#[verifier::opaque]
pub open spec fn move_verdict(
    arr: Seq<Option<Piece>>,
    ep: Option<usize>,
    r: (bool, bool, bool, bool),
    w: Seq<u64>,
    b: Seq<u64>,
    mv: Move,
    color: Color,
    board: u64,
    white: u64,
    black: u64,
) -> bool {
    let from = mv.from.idx();
    let to = mv.to.idx();
    match mv.castle_option {
        Some(o) => castle_verdict(ep, r, w, b, color, o, board, white, black),
        None => {
            &&& is_set(move_mask_spec(ep, from, color, arr[from]->0.piece_type, board, white, black), to)
            &&& !king_attacked_after(arr, ep, mv, color)
        },
    }
}

impl GameBoard {
    /// The attackers of `c`'s king, with the cached bitboards.
    pub open spec fn checkers(&self, c: Color) -> u64 {
        attackers_spec(
            self.player_of(c.opp()).pieces_bb@,
            self.en_passant_target,
            lowest(self.king_bb(c)),
            c.opp(),
            self.combined_pieces,
            self.white_pieces,
            self.black_pieces,
        )
    }

    /// Whether `color` is checkmated: its king is attacked and it has no legal move (see
    /// `perft_moves`, which counts en passant captures, promotions and castles too).
    pub open spec fn checkmate_spec(&self, color: Color) -> bool {
        self.checkers(color) != 0 && perft_moves(frame_of(*self), color).len() == 0
    }

    /// Whether `color` is stalemated: its king is not attacked and it has no legal move
    /// (see `perft_moves`).
    pub open spec fn stalemate_spec(&self, color: Color) -> bool {
        self.checkers(color) == 0 && perft_moves(frame_of(*self), color).len() == 0
    }

    /// The attackers of the king of `color`, from the cached bitboards.
    fn king_attackers(&self, color: Color) -> (r: u64)
        requires
            self.wf(),
            self.king_bb(color) != 0,
        ensures
            r == self.checkers(color),
    {
        let (king_bits, opp_color) = match color {
            Color::White => (self.player1.pieces_bb[5], Color::Black),
            Color::Black => (self.player2.pieces_bb[5], Color::White),
        };
        proof {
            lemma_lowest(king_bits);
        }
        let king_sq = king_bits.trailing_zeros() as usize;
        self.get_attackers(king_sq, opp_color, self.combined_pieces, self.white_pieces, self.black_pieces)
    }

    /// Whether side `color` is checkmated (see `checkmate_spec`): its king is attacked and
    /// no move of it is legal, an en passant capture of the checking pawn included.
    pub fn calculate_checkmate(&mut self, color: Color) -> (r: bool)
        requires
            old(self).wf(),
            old(self).king_bb(color) != 0,
        ensures
            r == old(self).checkmate_spec(color),
            *final(self) == *old(self),
    {
        if self.king_attackers(color) == 0 {
            return false;
        }
        proof {
            reveal(movegen_ready);
        }
        !has_legal_move(self, color)
    }
}


/// Light (1) or dark (0) colour of square `sq`.
pub open spec fn square_shade(sq: int) -> int {
    (sq / 8 + sq % 8) % 2
}

impl GameBoard {
    /// Whether neither side has mating material: no pawns, rooks or queens, and at most
    /// one minor piece on one side only, or one bishop each on squares of one colour.
    pub open spec fn insufficient_spec(&self) -> bool {
        let w = self.player1.pieces_bb;
        let b = self.player2.pieces_bb;
        let wn = popcount(w[1]);
        let wb = popcount(w[2]);
        let bn = popcount(b[1]);
        let bb = popcount(b[2]);
        &&& w[0] == 0 && b[0] == 0
        &&& w[3] == 0 && b[3] == 0
        &&& w[4] == 0 && b[4] == 0
        &&& {
            ||| (wn + wb <= 1 && bn + bb == 0)
            ||| (wn + wb == 0 && bn + bb <= 1)
            ||| (wn == 0 && bn == 0 && wb == 1 && bb == 1 && square_shade(lowest(w[2])) == square_shade(
                lowest(b[2]),
            ))
        }
    }

    /// Whether neither side has mating material (see `insufficient_spec`).
    pub fn is_insufficient_material(&self) -> (r: bool)
        ensures
            r == self.insufficient_spec(),
    {
        let white = &self.player1;
        let black = &self.player2;

        if white.pieces_bb[0] != 0 || black.pieces_bb[0] != 0 {
            return false;
        }
        if white.pieces_bb[3] != 0 || black.pieces_bb[3] != 0 {
            return false;
        }
        if white.pieces_bb[4] != 0 || black.pieces_bb[4] != 0 {
            return false;
        }

        let white_knights = count_ones(white.pieces_bb[1]);
        let white_bishops = count_ones(white.pieces_bb[2]);
        let black_knights = count_ones(black.pieces_bb[1]);
        let black_bishops = count_ones(black.pieces_bb[2]);

        let white_minor = white_knights + white_bishops;
        let black_minor = black_knights + black_bishops;

        // K vs K
        if white_minor == 0 && black_minor == 0 {
            return true;
        }
        // K and a minor piece vs K
        if (white_minor <= 1 && black_minor == 0) || (white_minor == 0 && black_minor <= 1) {
            return true;
        }
        // K and B vs K and B, bishops on one colour
        if white_knights == 0 && black_knights == 0 && white_bishops == 1 && black_bishops == 1 {
            proof {
                crate::magic::lemma_cnt_zero(0);
                lemma_lowest(white.pieces_bb[2]);
                lemma_lowest(black.pieces_bb[2]);
            }
            let wb_sq = white.pieces_bb[2].trailing_zeros() as usize;
            let bb_sq = black.pieces_bb[2].trailing_zeros() as usize;
            let wb_color = (wb_sq / 8 + wb_sq % 8) % 2;
            let bb_color = (bb_sq / 8 + bb_sq % 8) % 2;
            if wb_color == bb_color {
                return true;
            }
        }
        false
    }

    /// How often the current position (by hash) has occurred, this occurrence included;
    /// 0 when it is not recorded.
    pub fn position_repeat_count(&self) -> (r: u8)
        ensures
            r == (if self.position_history@.contains_key(self.zobrist_hash) {
                self.position_history@[self.zobrist_hash]
            } else {
                0
            }),
    {
        broadcast use vstd::std_specs::hash::group_hash_axioms;
        match self.position_history.get(&self.zobrist_hash) {
            Some(c) => *c,
            None => 0,
        }
    }

    /// The squares.
    pub fn board_snapshot(&self) -> (r: [Option<Piece>; 64])
        ensures
            r == self.board_arr,
    {
        self.board_arr
    }

    /// How the game stands.
    pub fn result(&self) -> (r: GameResult)
        ensures
            r == self.game_result,
    {
        self.game_result
    }
}

/// Two set squares count at least two.
proof fn lemma_cnt_two(m: u64, a: int, b: int, k: nat)
    requires
        k <= a < b < 64,
        is_set(m, a),
        is_set(m, b),
    ensures
        cnt_from(m, k) >= 2,
    decreases 64 - k,
{
    if k < a {
        lemma_cnt_two(m, a, b, k + 1);
    } else {
        crate::magic::lemma_cnt_pos(m, b, k + 1);
    }
}

/// On a board whose players agree with its squares, the kind bitboard `t` of side `c`
/// has square `k` set exactly when `k` holds that piece.
proof fn lemma_kind_square(g: &GameBoard, c: Color, t: int, k: int)
    requires
        g.players_ok(),
        0 <= t < 6,
        0 <= k < 64,
    ensures
        is_set(g.player_of(c).pieces_bb[t], k) == (g.board_arr@[k] == Some(
            Piece { piece_type: PieceType::at(t), color: c },
        )),
{
    broadcast use crate::game::playerobj::group_board_bb;
    reveal(players_match);
    assert(g.player_of(c).pieces_bb[t] == piece_bb(g.board_arr@, Piece { piece_type: PieceType::at(t), color: c }));
}

/// A knight or a bishop.
pub open spec fn is_minor(t: PieceType) -> bool {
    t == PieceType::Knight || t == PieceType::Bishop
}

/// A pawn, a rook or a queen of either side on the board is mating material.
pub proof fn lemma_heavy_piece_not_insufficient(g: &GameBoard, k: int)
    requires
        g.players_ok(),
        0 <= k < 64,
        g.board_arr@[k] is Some,
        ({
            let t = g.board_arr@[k]->0.piece_type;
            t == PieceType::Pawn || t == PieceType::Rook || t == PieceType::Queen
        }),
    ensures
        !g.insufficient_spec(),
{
    let p = g.board_arr@[k]->0;
    let t: int = if p.piece_type == PieceType::Pawn {
        0
    } else if p.piece_type == PieceType::Rook {
        3
    } else {
        4
    };
    lemma_kind_square(g, p.color, t, k);
    crate::bits::lemma_is_set_zero(k);
}

/// Two minor pieces of one side on two squares are mating material: king, knight and
/// bishop, or king and two bishops, can mate.
pub proof fn lemma_two_minors_of_a_side_not_insufficient(g: &GameBoard, c: Color, a: int, b: int)
    requires
        g.players_ok(),
        0 <= a < b < 64,
        g.board_arr@[a] is Some && g.board_arr@[a]->0.color == c && is_minor(g.board_arr@[a]->0.piece_type),
        g.board_arr@[b] is Some && g.board_arr@[b]->0.color == c && is_minor(g.board_arr@[b]->0.piece_type),
    ensures
        !g.insufficient_spec(),
{
    let ta: int = if g.board_arr@[a]->0.piece_type == PieceType::Knight { 1 } else { 2 };
    let tb: int = if g.board_arr@[b]->0.piece_type == PieceType::Knight { 1 } else { 2 };
    lemma_kind_square(g, c, ta, a);
    lemma_kind_square(g, c, tb, b);
    let m = g.player_of(c).pieces_bb;
    if ta == tb {
        lemma_cnt_two(m[ta], a, b, 0);
    } else {
        crate::magic::lemma_cnt_pos(m[ta], a, 0);
        crate::magic::lemma_cnt_pos(m[tb], b, 0);
    }
}

/// A knight together with any other minor piece, of either side, leaves mating material:
/// only a lone minor piece, or one bishop each on squares of one shade, is insufficient.
pub proof fn lemma_knight_and_minor_not_insufficient(g: &GameBoard, a: int, b: int)
    requires
        g.players_ok(),
        0 <= a < 64,
        0 <= b < 64,
        a != b,
        g.board_arr@[a] is Some && g.board_arr@[a]->0.piece_type == PieceType::Knight,
        g.board_arr@[b] is Some && is_minor(g.board_arr@[b]->0.piece_type),
    ensures
        !g.insufficient_spec(),
{
    let pa = g.board_arr@[a]->0;
    let pb = g.board_arr@[b]->0;
    if pa.color == pb.color {
        if a < b {
            lemma_two_minors_of_a_side_not_insufficient(g, pa.color, a, b);
        } else {
            lemma_two_minors_of_a_side_not_insufficient(g, pa.color, b, a);
        }
    } else {
        let tb: int = if pb.piece_type == PieceType::Knight { 1 } else { 2 };
        lemma_kind_square(g, pa.color, 1, a);
        lemma_kind_square(g, pb.color, tb, b);
        crate::magic::lemma_cnt_pos(g.player_of(pa.color).pieces_bb[1], a, 0);
        crate::magic::lemma_cnt_pos(g.player_of(pb.color).pieces_bb[tb], b, 0);
    }
}

/// Bishops on squares of different shades leave mating material.
pub proof fn lemma_bishops_of_two_shades_not_insufficient(g: &GameBoard, a: int, b: int)
    requires
        g.players_ok(),
        0 <= a < 64,
        0 <= b < 64,
        g.board_arr@[a] is Some && g.board_arr@[a]->0.piece_type == PieceType::Bishop,
        g.board_arr@[b] is Some && g.board_arr@[b]->0.piece_type == PieceType::Bishop,
        square_shade(a) != square_shade(b),
    ensures
        !g.insufficient_spec(),
{
    let pa = g.board_arr@[a]->0;
    let pb = g.board_arr@[b]->0;
    if pa.color == pb.color {
        if a < b {
            lemma_two_minors_of_a_side_not_insufficient(g, pa.color, a, b);
        } else {
            lemma_two_minors_of_a_side_not_insufficient(g, pa.color, b, a);
        }
    } else {
        lemma_kind_square(g, pa.color, 2, a);
        lemma_kind_square(g, pb.color, 2, b);
        let wa = g.player1.pieces_bb[2];
        let ba = g.player2.pieces_bb[2];
        crate::magic::lemma_cnt_pos(wa, if pa.color == Color::White { a } else { b }, 0);
        crate::magic::lemma_cnt_pos(ba, if pa.color == Color::White { b } else { a }, 0);
        if popcount(wa) == 1 && popcount(ba) == 1 {
            lemma_single_square(wa, if pa.color == Color::White { a } else { b });
            lemma_single_square(ba, if pa.color == Color::White { b } else { a });
        }
    }
}

/// A bitboard set at most on square `m` counts one square if `m` is set, else none.
proof fn lemma_count_at_most(bb: u64, m: int)
    requires
        0 <= m < 64,
        forall|k: int| 0 <= k < 64 && is_set(bb, k) ==> k == m,
    ensures
        popcount(bb) == (if is_set(bb, m) { 1nat } else { 0nat }),
        is_set(bb, m) ==> lowest(bb) == m,
{
    broadcast use group_bits;
    crate::magic::lemma_cnt_zero(0);
    if is_set(bb, m) {
        lemma_bits_ext(bb, bit(m));
        crate::bits::lemma_is_set_zero(m);
        crate::magic::lemma_cnt_insert(0u64, m, 0);
        assert(0u64 | bit(m) == bit(m)) by (bit_vector);
        lemma_lowest(bb);
    } else {
        lemma_bits_ext(bb, 0u64);
    }
}

/// The kind bitboard `t` of side `c` is set at most on square `m` when every piece
/// other than a king stands on `m`.
proof fn lemma_kind_at_most(g: &GameBoard, c: Color, t: int, m: int)
    requires
        g.players_ok(),
        0 <= t < 5,
        0 <= m < 64,
        forall|k: int|
            0 <= k < 64 && g.board_arr@[k] is Some && g.board_arr@[k]->0.piece_type != PieceType::King ==> k == m,
    ensures
        forall|k: int| 0 <= k < 64 && is_set(g.player_of(c).pieces_bb[t], k) ==> k == m,
        popcount(g.player_of(c).pieces_bb[t]) == (if g.board_arr@[m] == Some(
            Piece { piece_type: PieceType::at(t), color: c },
        ) {
            1nat
        } else {
            0nat
        }),
{
    assert forall|k: int| 0 <= k < 64 && is_set(g.player_of(c).pieces_bb[t], k) implies k == m by {
        lemma_kind_square(g, c, t, k);
    }
    lemma_kind_square(g, c, t, m);
    lemma_count_at_most(g.player_of(c).pieces_bb[t], m);
}

/// Kings and at most one minor piece cannot mate: when every piece other than a king
/// stands on one square `m`, and that piece, if any, is a knight or a bishop, the
/// material is insufficient.
pub proof fn lemma_lone_minor_insufficient(g: &GameBoard, m: int)
    requires
        g.players_ok(),
        0 <= m < 64,
        forall|k: int|
            0 <= k < 64 && g.board_arr@[k] is Some && g.board_arr@[k]->0.piece_type != PieceType::King ==> k == m,
        g.board_arr@[m] is Some ==> is_minor(g.board_arr@[m]->0.piece_type) || g.board_arr@[m]->0.piece_type
            == PieceType::King,
    ensures
        g.insufficient_spec(),
{
    broadcast use group_bits;
    lemma_kind_at_most(g, Color::White, 0, m);
    lemma_kind_at_most(g, Color::White, 1, m);
    lemma_kind_at_most(g, Color::White, 2, m);
    lemma_kind_at_most(g, Color::White, 3, m);
    lemma_kind_at_most(g, Color::White, 4, m);
    lemma_kind_at_most(g, Color::Black, 0, m);
    lemma_kind_at_most(g, Color::Black, 1, m);
    lemma_kind_at_most(g, Color::Black, 2, m);
    lemma_kind_at_most(g, Color::Black, 3, m);
    lemma_kind_at_most(g, Color::Black, 4, m);
    crate::magic::lemma_cnt_zero(0);
    assert forall|t: int, c: Color| 0 <= t < 5 && (t == 0 || t == 3 || t == 4) implies g.player_of(c).pieces_bb[t]
        == 0 by {
        lemma_kind_at_most(g, c, t, m);
        lemma_kind_square(g, c, t, m);
        lemma_bits_ext(g.player_of(c).pieces_bb[t], 0u64);
    }
}

/// One bishop each on squares of one shade, with nothing but the kings besides, cannot
/// mate: the material is insufficient.
pub proof fn lemma_bishops_of_one_shade_insufficient(g: &GameBoard, a: int, b: int)
    requires
        g.players_ok(),
        0 <= a < 64,
        0 <= b < 64,
        g.board_arr@[a] == Some(Piece { piece_type: PieceType::Bishop, color: Color::White }),
        g.board_arr@[b] == Some(Piece { piece_type: PieceType::Bishop, color: Color::Black }),
        square_shade(a) == square_shade(b),
        forall|k: int|
            0 <= k < 64 && g.board_arr@[k] is Some && g.board_arr@[k]->0.piece_type != PieceType::King ==> k == a
                || k == b,
    ensures
        g.insufficient_spec(),
{
    broadcast use group_bits;
    let w = g.player1.pieces_bb;
    let bl = g.player2.pieces_bb;
    assert forall|t: int, c: Color| 0 <= t < 5 && t != 2 implies g.player_of(c).pieces_bb[t] == 0 by {
        assert forall|k: int| 0 <= k < 64 implies is_set(g.player_of(c).pieces_bb[t], k) == is_set(0u64, k) by {
            lemma_kind_square(g, c, t, k);
        }
        lemma_bits_ext(g.player_of(c).pieces_bb[t], 0u64);
    }
    assert forall|k: int| 0 <= k < 64 && is_set(w[2], k) implies k == a by {
        lemma_kind_square(g, Color::White, 2, k);
    }
    assert forall|k: int| 0 <= k < 64 && is_set(bl[2], k) implies k == b by {
        lemma_kind_square(g, Color::Black, 2, k);
    }
    lemma_kind_square(g, Color::White, 2, a);
    lemma_kind_square(g, Color::Black, 2, b);
    lemma_count_at_most(w[2], a);
    lemma_count_at_most(bl[2], b);
    crate::magic::lemma_cnt_zero(0);
}

/// A bitboard counting one square with square `a` set has `a` as its lowest square.
proof fn lemma_single_square(m: u64, a: int)
    requires
        0 <= a < 64,
        is_set(m, a),
        popcount(m) == 1,
    ensures
        lowest(m) == a,
{
    crate::bits::lemma_is_set_zero(a);
    assert(m != 0);
    lemma_lowest(m);
    let l = lowest(m);
    if l != a {
        if l < a {
            lemma_cnt_two(m, l, a, 0);
        } else {
            lemma_cnt_two(m, a, l, 0);
        }
    }
}


/// The result once a move is made: a checkmate of the side to move decides the game for
/// `winner`; while it is still undecided, stalemate, the fifty-move rule, a third
/// repetition and insufficient material end it, in that order.
pub open spec fn result_after(
    prev: GameResult,
    mated: bool,
    winner: Color,
    stalemate: bool,
    clock: u32,
    repetitions: u8,
    insufficient: bool,
) -> GameResult {
    let r1 = if mated {
        GameResult::Checkmate(winner)
    } else {
        prev
    };
    let r2 = if r1 == GameResult::Ongoing && stalemate {
        GameResult::Stalemate
    } else {
        r1
    };
    let r3 = if r2 == GameResult::Ongoing && clock >= 100 {
        GameResult::FiftyMoveRule
    } else {
        r2
    };
    let r4 = if r3 == GameResult::Ongoing && repetitions >= 3 {
        GameResult::ThreefoldRepetition
    } else {
        r3
    };
    if r4 == GameResult::Ongoing && insufficient {
        GameResult::InsufficientMaterial
    } else {
        r4
    }
}

/// Boards that differ only in the result, the fifty-move clock and the position history
/// are judged alike: checkmate, stalemate and material.
pub proof fn lemma_judge_frame(a: GameBoard, b: GameBoard, c: Color)
    requires
        a.board_arr == b.board_arr,
        a.player1 == b.player1,
        a.player2 == b.player2,
        a.en_passant_target == b.en_passant_target,
        a.precomputed_items == b.precomputed_items,
        a.white_pieces == b.white_pieces,
        a.black_pieces == b.black_pieces,
        a.combined_pieces == b.combined_pieces,
        a.white_pins == b.white_pins,
        a.black_pins == b.black_pins,
        a.white_kingside == b.white_kingside,
        a.white_queenside == b.white_queenside,
        a.black_kingside == b.black_kingside,
        a.black_queenside == b.black_queenside,
    ensures
        a.checkmate_spec(c) == b.checkmate_spec(c),
        a.stalemate_spec(c) == b.stalemate_spec(c),
        a.insufficient_spec() == b.insufficient_spec(),
{
    assert(frame_of(a) == frame_of(b));
    assert(a.checkers(c) == b.checkers(c));
}

/// A king that is not captured by a move `update_board` can make is still on the board
/// after it.
pub proof fn lemma_king_kept(g: &GameBoard, mv: Move, c: Color)
    requires
        g.update_ok(mv),
        g.king_bb(c) != 0,
        g.board_arr[mv.to.idx()] != Some(Piece { piece_type: PieceType::King, color: c }),
    ensures
        piece_bb(
            moved_arr(g.board_arr@, g.en_passant_target, mv),
            Piece { piece_type: PieceType::King, color: c },
        ) != 0,
{
    broadcast use crate::game::playerobj::group_board_bb;
    reveal(players_match);
    let arr = g.board_arr@;
    let kp = Piece { piece_type: PieceType::King, color: c };
    let kb = piece_bb(arr, kp);
    assert(g.king_bb(c) == kb);
    lemma_lowest(kb);
    let k = lowest(kb);
    assert(arr[k] == Some(kp));
    let arr2 = moved_arr(arr, g.en_passant_target, mv);
    let from = mv.from.idx();
    let to = mv.to.idx();
    let mc = arr[from]->0.color;
    if k == from {
        assert(arr2[to] == Some(kp));
        assert(is_set(piece_bb(arr2, kp), to));
    } else {
        if is_ep_capture(arr, g.en_passant_target, mv) {
            lemma_ep_square(arr, g.en_passant_target, mc, to);
        }
        assert(arr2[k] == Some(kp));
        assert(is_set(piece_bb(arr2, kp), k));
    }
    lemma_is_set_zero(k);
}

/// The castling rights kept by a move still have their king and rook at home after it.
pub proof fn lemma_castling_kept(g: &GameBoard, mv: Move)
    requires
        g.update_ok(mv),
        g.castling_ok(),
        g.board_arr[mv.to.idx()] is Some ==> g.board_arr[mv.to.idx()]->0.piece_type != PieceType::King,
    ensures
        ({
            let arr2 = moved_arr(g.board_arr@, g.en_passant_target, mv);
            let r = g.rights_after(mv.from.idx(), mv.to.idx());
            let wk = Some(Piece { piece_type: PieceType::King, color: Color::White });
            let bk = Some(Piece { piece_type: PieceType::King, color: Color::Black });
            let wr = Some(Piece { piece_type: PieceType::Rook, color: Color::White });
            let br = Some(Piece { piece_type: PieceType::Rook, color: Color::Black });
            &&& r.0 ==> arr2[4] == wk && arr2[7] == wr
            &&& r.1 ==> arr2[4] == wk && arr2[0] == wr
            &&& r.2 ==> arr2[60] == bk && arr2[63] == br
            &&& r.3 ==> arr2[60] == bk && arr2[56] == br
        }),
{
    let arr = g.board_arr@;
    let from = mv.from.idx();
    let to = mv.to.idx();
    let mc = arr[from]->0.color;
    if is_ep_capture(arr, g.en_passant_target, mv) {
        lemma_ep_square(arr, g.en_passant_target, mc, to);
    }
}

impl GameBoard {
    /// Makes `mv` (squares, players, en passant target, castling rights, hash), refreshes
    /// the cached side bitboards, records the move and recomputes both sides' pins.
    fn apply_move(&mut self, piece_moved: Move)
        requires
            old(self).wf(),
            old(self).update_ok(piece_moved),
            old(self).king_bb(Color::White) != 0,
            old(self).king_bb(Color::Black) != 0,
            old(self).board_arr[piece_moved.to.idx()] is Some ==> old(self).board_arr[piece_moved.to.idx()]->0.piece_type
                != PieceType::King,
        ensures
            final(self).wf(),
            final(self).king_bb(Color::White) != 0,
            final(self).king_bb(Color::Black) != 0,
            final(self).board_arr@ == moved_arr(old(self).board_arr@, old(self).en_passant_target, piece_moved),
            final(self).en_passant_target == ep_after(old(self).board_arr@, piece_moved),
            ({
                let r = old(self).rights_after(piece_moved.from.idx(), piece_moved.to.idx());
                &&& final(self).white_kingside == r.0
                &&& final(self).white_queenside == r.1
                &&& final(self).black_kingside == r.2
                &&& final(self).black_queenside == r.3
            }),
            final(self).hash_excess() == old(self).hash_excess() ^ ep_key(
                old(self).precomputed_items.zobrist,
                old(self).en_passant_target,
            ) ^ ep_key(old(self).precomputed_items.zobrist, final(self).en_passant_target)
                ^ old(self).precomputed_items.zobrist.side_to_move ^ stray_keys(
                old(self).precomputed_items.zobrist,
                old(self).board_arr@,
                old(self).en_passant_target,
                piece_moved,
            ) ^ old(self).rights_key() ^ final(self).rights_key(),
            final(self).last_move == piece_moved,
            final(self).white_pins == final(self).pins_spec(
                Color::White,
                final(self).combined_pieces,
                final(self).white_pieces,
                final(self).black_pieces,
            ),
            final(self).black_pins == final(self).pins_spec(
                Color::Black,
                final(self).combined_pieces,
                final(self).white_pieces,
                final(self).black_pieces,
            ),
            final(self).game_result == old(self).game_result,
            final(self).halfmove_clock == old(self).halfmove_clock,
            final(self).position_history@ == old(self).position_history@,
            final(self).in_check == old(self).in_check,
            final(self).precomputed_items == old(self).precomputed_items,
    {
        let ghost g0 = *self;
        proof {
            lemma_king_kept(&g0, piece_moved, Color::White);
            lemma_king_kept(&g0, piece_moved, Color::Black);
            lemma_castling_kept(&g0, piece_moved);
        }
        self.update_board(piece_moved);
        let ghost x1 = self.hash_excess();
        let ghost h1 = self.zobrist_hash;
        let ghost k1 = self.rights_key();
        self.update_castling(piece_moved);
        proof {
            let bk = board_key(self.precomputed_items.zobrist, self.board_arr@);
            let k2 = self.rights_key();
            assert((h1 ^ k1 ^ k2) ^ bk == (h1 ^ bk) ^ k1 ^ k2) by (bit_vector);
            assert(k1 == g0.rights_key());
        }
        self.white_pieces = self.player1.pieces;
        self.black_pieces = self.player2.pieces;
        self.combined_pieces = self.white_pieces | self.black_pieces;
        self.last_move = piece_moved;
        proof {
            reveal(players_match);
            assert(self.king_bb(Color::White) == piece_bb(
                self.board_arr@,
                Piece { piece_type: PieceType::King, color: Color::White },
            ));
            assert(self.king_bb(Color::Black) == piece_bb(
                self.board_arr@,
                Piece { piece_type: PieceType::King, color: Color::Black },
            ));
        }

        // Pins for both sides.
        self.calculate_pins(Color::White, self.combined_pieces, self.white_pieces, self.black_pieces);
        self.calculate_pins(Color::Black, self.combined_pieces, self.white_pieces, self.black_pieces);
    }

    /// Decides the game after a move: checkmate and stalemate of the side to move (Black
    /// after an even `count`), the fifty-move clock, the repetition count of the position
    /// and insufficient material.
    fn judge(&mut self, count: usize, is_pawn_move: bool, is_capture: bool)
        requires
            old(self).wf(),
            old(self).king_bb(Color::White) != 0,
            old(self).king_bb(Color::Black) != 0,
            old(self).halfmove_clock < u32::MAX,
            forall|k: u64| old(self).position_history@.contains_key(k) ==> old(self).position_history@[k] < 255,
        ensures
            ({
                let ctm = if count % 2 == 0 {
                    Color::Black
                } else {
                    Color::White
                };
                let reps = if old(self).position_history@.contains_key(old(self).zobrist_hash) {
                    old(self).position_history@[old(self).zobrist_hash] + 1
                } else {
                    1
                };
                &&& final(self).halfmove_clock == if is_pawn_move || is_capture {
                    0
                } else {
                    old(self).halfmove_clock + 1
                }
                &&& final(self).position_history@ == old(self).position_history@.insert(
                    old(self).zobrist_hash,
                    reps as u8,
                )
                &&& final(self).game_result == result_after(
                    old(self).game_result,
                    old(self).checkmate_spec(ctm),
                    ctm.opp(),
                    old(self).stalemate_spec(ctm),
                    final(self).halfmove_clock,
                    reps as u8,
                    old(self).insufficient_spec(),
                )
            }),
            final(self).board_arr == old(self).board_arr,
            final(self).player1 == old(self).player1,
            final(self).player2 == old(self).player2,
            final(self).en_passant_target == old(self).en_passant_target,
            final(self).precomputed_items == old(self).precomputed_items,
            final(self).white_pieces == old(self).white_pieces,
            final(self).black_pieces == old(self).black_pieces,
            final(self).combined_pieces == old(self).combined_pieces,
            final(self).in_check == old(self).in_check,
            final(self).white_pins == old(self).white_pins,
            final(self).black_pins == old(self).black_pins,
            final(self).white_kingside == old(self).white_kingside,
            final(self).white_queenside == old(self).white_queenside,
            final(self).black_kingside == old(self).black_kingside,
            final(self).black_queenside == old(self).black_queenside,
            final(self).last_move == old(self).last_move,
            final(self).zobrist_hash == old(self).zobrist_hash,
    {
        broadcast use vstd::std_specs::hash::group_hash_axioms;
        let ghost g0 = *self;
        // After White's move (even count) Black is to move, and the other way round.
        let (color_to_move, friendly_bits, opponent_bits, opp_color, pins) = if count % 2 == 0 {
            (Color::Black, self.black_pieces, self.white_pieces, Color::White, self.black_pins)
        } else {
            (Color::White, self.white_pieces, self.black_pieces, Color::Black, self.white_pins)
        };
        proof {
            reveal(players_match);
            broadcast use crate::game::playerobj::group_board_bb;
            assert forall|k: int| 0 <= k < 64 && is_set(friendly_bits, k) implies self.board_arr[k] is Some by {
                assert(is_set(side_bb(self.board_arr@, color_to_move), k));
            }
        }
        // Checkmate and stalemate of the side to move.
        if self.calculate_checkmate(color_to_move) {
            // The side that just moved wins.
            let winner = if color_to_move == Color::White {
                Color::Black
            } else {
                Color::White
            };
            self.game_result = GameResult::Checkmate(winner);
        }
        if self.game_result == GameResult::Ongoing && self.calculate_stalemate(
            color_to_move,
            opp_color,
            self.combined_pieces,
            friendly_bits,
            opponent_bits,
            pins,
        ) {
            self.game_result = GameResult::Stalemate;
        }
        // The fifty-move rule.
        if is_pawn_move || is_capture {
            self.halfmove_clock = 0;
        } else {
            self.halfmove_clock += 1;
        }
        if self.game_result == GameResult::Ongoing && self.halfmove_clock >= 100 {
            self.game_result = GameResult::FiftyMoveRule;
        }
        // Threefold repetition.
        let hash = self.zobrist_hash;
        let seen: u8 = match self.position_history.get(&hash) {
            Some(c) => *c,
            None => 0,
        };
        let count_entry = seen + 1;
        self.position_history.insert(hash, count_entry);
        if self.game_result == GameResult::Ongoing && count_entry >= 3 {
            self.game_result = GameResult::ThreefoldRepetition;
        }
        // Insufficient material.
        if self.game_result == GameResult::Ongoing && self.is_insufficient_material() {
            self.game_result = GameResult::InsufficientMaterial;
        }
    }

    /// This board is `before` with a turn made: `mv` applied (squares, players, en
    /// passant target, castling rights, hash, cached bitboards, pins, last move), the
    /// fifty-move clock and the repetition count advanced, and the result decided for the
    /// side to move (Black after an even `count`).
    #[verifier::opaque]
    pub open spec fn turn_made(&self, before: GameBoard, count: usize, mv: Move) -> bool {
        &&& self.wf()
        &&& self.precomputed_items == before.precomputed_items
        &&& self.in_check == before.in_check
        &&& self.king_bb(Color::White) != 0
        &&& self.king_bb(Color::Black) != 0
        &&& self.board_arr@ == moved_arr(before.board_arr@, before.en_passant_target, mv)
        &&& self.en_passant_target == ep_after(before.board_arr@, mv)
        &&& ({
            let r = before.rights_after(mv.from.idx(), mv.to.idx());
            &&& self.white_kingside == r.0
            &&& self.white_queenside == r.1
            &&& self.black_kingside == r.2
            &&& self.black_queenside == r.3
        })
        &&& self.hash_excess() == before.hash_excess() ^ ep_key(
            before.precomputed_items.zobrist,
            before.en_passant_target,
        ) ^ ep_key(before.precomputed_items.zobrist, self.en_passant_target)
            ^ before.precomputed_items.zobrist.side_to_move ^ stray_keys(
            before.precomputed_items.zobrist,
            before.board_arr@,
            before.en_passant_target,
            mv,
        ) ^ before.rights_key() ^ self.rights_key()
        &&& self.last_move == mv
        &&& self.white_pins == self.pins_spec(
            Color::White,
            self.combined_pieces,
            self.white_pieces,
            self.black_pieces,
        )
        &&& self.black_pins == self.pins_spec(
            Color::Black,
            self.combined_pieces,
            self.white_pieces,
            self.black_pieces,
        )
        &&& ({
            let from = mv.from.idx();
            let to = mv.to.idx();
            let arr = before.board_arr@;
            let is_pawn_move = arr[from] is Some && arr[from]->0.piece_type == PieceType::Pawn;
            let is_capture = arr[to] is Some || (is_pawn_move && before.en_passant_target == Some(to as usize));
            self.halfmove_clock == if is_pawn_move || is_capture {
                0
            } else {
                before.halfmove_clock + 1
            }
        })
        &&& ({
            let h = self.zobrist_hash;
            let reps = if before.position_history@.contains_key(h) {
                before.position_history@[h] + 1
            } else {
                1
            };
            &&& self.position_history@ == before.position_history@.insert(h, reps as u8)
            &&& self.game_result == ({
                let ctm = if count % 2 == 0 {
                    Color::Black
                } else {
                    Color::White
                };
                result_after(
                    before.game_result,
                    self.checkmate_spec(ctm),
                    ctm.opp(),
                    self.stalemate_spec(ctm),
                    self.halfmove_clock,
                    reps as u8,
                    self.insufficient_spec(),
                )
            })
        })
    }

    /// Ends a turn: makes `piece_moved` (see `apply_move`), then decides the game for the
    /// side to move (see `judge`); `count` is the number of moves made before this one.
    pub fn compute_turn_items(&mut self, count: usize, piece_moved: Move)
        requires
            old(self).wf(),
            old(self).update_ok(piece_moved),
            old(self).king_bb(Color::White) != 0,
            old(self).king_bb(Color::Black) != 0,
            old(self).board_arr[piece_moved.to.idx()] is Some ==> old(self).board_arr[piece_moved.to.idx()]->0.piece_type
                != PieceType::King,
            old(self).halfmove_clock < u32::MAX,
            forall|k: u64| old(self).position_history@.contains_key(k) ==> old(self).position_history@[k] < 255,
        ensures
            final(self).turn_made(*old(self), count, piece_moved),
    {
        // Pawn moves and captures are told before the board changes.
        let moving_piece = self.board_arr[piece_moved.from.index() as usize];
        let is_pawn_move = match moving_piece {
            Some(p) => p.piece_type == PieceType::Pawn,
            None => false,
        };
        let to = piece_moved.to.index() as usize;
        let is_capture = self.board_arr[to].is_some() || (is_pawn_move && self.en_passant_target == Some(to));
        self.apply_move(piece_moved);
        let ghost g1 = *self;
        self.judge(count, is_pawn_move, is_capture);
        proof {
            reveal(GameBoard::turn_made);
            lemma_judge_frame(g1, *self, Color::White);
            lemma_judge_frame(g1, *self, Color::Black);
        }
    }
}


impl GameBoard {
    /// The status of the game for `color` to move, after recomputing both sides' pins:
    /// "checkmate", "stalemate", "insufficient_material", "check" or "ongoing", the first
    /// that holds.
    pub fn game_status(&mut self, color: Color) -> (r: &'static str)
        requires
            old(self).wf(),
            old(self).king_bb(Color::White) != 0,
            old(self).king_bb(Color::Black) != 0,
        ensures
            final(self).white_pins == old(self).pins_spec(
                Color::White,
                old(self).combined_pieces,
                old(self).white_pieces,
                old(self).black_pieces,
            ),
            final(self).black_pins == old(self).pins_spec(
                Color::Black,
                old(self).combined_pieces,
                old(self).white_pieces,
                old(self).black_pieces,
            ),
            final(self).wf(),
            final(self).board_arr == old(self).board_arr,
            final(self).player1 == old(self).player1,
            final(self).player2 == old(self).player2,
            final(self).en_passant_target == old(self).en_passant_target,
            final(self).white_kingside == old(self).white_kingside,
            final(self).white_queenside == old(self).white_queenside,
            final(self).black_kingside == old(self).black_kingside,
            final(self).black_queenside == old(self).black_queenside,
            final(self).game_result == old(self).game_result,
            final(self).halfmove_clock == old(self).halfmove_clock,
            final(self).position_history@ == old(self).position_history@,
            final(self).zobrist_hash == old(self).zobrist_hash,
            final(self).last_move == old(self).last_move,
            r@ == (if final(self).checkmate_spec(color) {
                "checkmate"@
            } else if final(self).stalemate_spec(color) {
                "stalemate"@
            } else if final(self).insufficient_spec() {
                "insufficient_material"@
            } else if final(self).checkers(color) != 0 {
                "check"@
            } else {
                "ongoing"@
            }),
    {
        let opp_color = if color == Color::White {
            Color::Black
        } else {
            Color::White
        };

        // Pins for both sides, from the current position.
        self.calculate_pins(Color::White, self.combined_pieces, self.white_pieces, self.black_pieces);
        self.calculate_pins(Color::Black, self.combined_pieces, self.white_pieces, self.black_pieces);

        let (friendly_bits, opponent_bits, pins) = match color {
            Color::White => (self.white_pieces, self.black_pieces, self.white_pins),
            Color::Black => (self.black_pieces, self.white_pieces, self.black_pins),
        };
        proof {
            reveal(players_match);
            broadcast use crate::game::playerobj::group_board_bb;
            assert forall|k: int| 0 <= k < 64 && is_set(friendly_bits, k) implies self.board_arr[k] is Some by {
                assert(is_set(side_bb(self.board_arr@, color), k));
            }
        }

        if self.calculate_checkmate(color) {
            "checkmate"
        } else if self.calculate_stalemate(color, opp_color, self.combined_pieces, friendly_bits, opponent_bits, pins) {
            "stalemate"
        } else if self.is_insufficient_material() {
            "insufficient_material"
        } else {
            let kb = self.get_king_sq(color);
            proof {
                lemma_lowest(kb);
            }
            let king_sq = kb.trailing_zeros() as usize;
            let attackers = self.get_attackers(
                king_sq,
                opp_color,
                self.combined_pieces,
                self.white_pieces,
                self.black_pieces,
            );
            if attackers != 0 {
                "check"
            } else {
                "ongoing"
            }
        }
    }
}


impl GameBoard {
    /// Whether square `sq` holds the piece of kind `t` and side `c`.
    fn holds(&self, sq: usize, t: PieceType, c: Color) -> (r: bool)
        requires
            sq < 64,
        ensures
            r == (self.board_arr@[sq as int] == Some(Piece { piece_type: t, color: c })),
    {
        match self.board_arr[sq] {
            Some(p) => p.piece_type == t && p.color == c,
            None => false,
        }
    }

    /// Whether the board may be handed to the game and move-list functions: consistent
    /// (see `wf`) and with a king of each side. The lookup tables, the players and the
    /// cached side bitboards are taken as built (by `begin_precomputing`, `board_from_fen`
    /// or the constructors); the en passant target, the castling rights and the kings are
    /// tested.
    pub fn is_playable(&self) -> (r: bool)
        requires
            self.precomputed_items.wf(),
            self.players_ok(),
            self.caches_ok(),
        ensures
            r == (self.wf() && self.king_bb(Color::White) != 0 && self.king_bb(Color::Black) != 0),
    {
        let ep_fine = match self.en_passant_target {
            Some(e) => {
                if e >= 16 && 24 > e {
                    self.board_arr[e - 8].is_none() && self.board_arr[e].is_none() && self.holds(
                        e + 8,
                        PieceType::Pawn,
                        Color::White,
                    )
                } else if e >= 40 && 48 > e {
                    self.board_arr[e + 8].is_none() && self.board_arr[e].is_none() && self.holds(
                        e - 8,
                        PieceType::Pawn,
                        Color::Black,
                    )
                } else {
                    false
                }
            },
            None => true,
        };
        let wk_fine = !self.white_kingside || (self.holds(4, PieceType::King, Color::White) && self.holds(
            7,
            PieceType::Rook,
            Color::White,
        ));
        let wq_fine = !self.white_queenside || (self.holds(4, PieceType::King, Color::White) && self.holds(
            0,
            PieceType::Rook,
            Color::White,
        ));
        let bk_fine = !self.black_kingside || (self.holds(60, PieceType::King, Color::Black) && self.holds(
            63,
            PieceType::Rook,
            Color::Black,
        ));
        let bq_fine = !self.black_queenside || (self.holds(60, PieceType::King, Color::Black) && self.holds(
            56,
            PieceType::Rook,
            Color::Black,
        ));
        ep_fine && wk_fine && wq_fine && bk_fine && bq_fine && self.player1.pieces_bb[5] != 0
            && self.player2.pieces_bb[5] != 0
    }

    /// Whether side `c` has at most one king on the board (see `one_king`).
    pub fn has_one_king(&self, c: Color) -> (r: bool)
        ensures
            r == self.one_king(c),
    {
        let ghost k = Some(Piece { piece_type: PieceType::King, color: c });
        let mut seen = false;
        let ghost mut at: int = -1;
        let mut i: usize = 0;
        while i < 64
            invariant
                i <= 64,
                seen ==> 0 <= at < i && self.board_arr@[at] == k,
                !seen ==> forall|a: int| 0 <= a < i ==> self.board_arr@[a] != k,
                seen ==> forall|a: int| 0 <= a < i && self.board_arr@[a] == k ==> a == at,
                k == Some(Piece { piece_type: PieceType::King, color: c }),
            decreases 64 - i,
        {
            if self.holds(i, PieceType::King, c) {
                if seen {
                    proof {
                        assert(self.board_arr@[at] == k && self.board_arr@[i as int] == k);
                    }
                    return false;
                }
                seen = true;
                proof {
                    at = i as int;
                }
            }
            i = i + 1;
        }
        true
    }

    /// Whether `move_str` may be handed to `process_move` for `color`: four coordinates,
    /// a piece of `color` on the first square, no king on the second, a castle staying on
    /// the king's rank (see `notation_ok`), and one king of `color` (see `one_king`).
    pub fn move_text_acceptable(&self, move_str: &str, color: Color) -> (r: bool)
        ensures
            r == (self.notation_ok(move_str@, color) && self.one_king(color)),
    {
        let n = move_str.unicode_len();
        if n < 4 {
            return false;
        }
        let c0 = move_str.get_char(0) as u32;
        let c1 = move_str.get_char(1) as u32;
        let c2 = move_str.get_char(2) as u32;
        let c3 = move_str.get_char(3) as u32;
        if !(97 <= c0 && c0 <= 104 && 49 <= c1 && c1 <= 56 && 97 <= c2 && c2 <= 104 && 49 <= c3 && c3 <= 56) {
            return false;
        }
        let player = if color == Color::White {
            &self.player1
        } else {
            &self.player2
        };
        let mv = player.parse_move(move_str);
        let from = mv.from.index() as usize;
        let to = mv.to.index() as usize;
        let from_fine = match self.board_arr[from] {
            Some(p) => p.color == color,
            None => false,
        };
        if !from_fine {
            return false;
        }
        if mv.castle_option.is_some() && to / 8 != from / 8 {
            return false;
        }
        let to_fine = match self.board_arr[to] {
            Some(p) => p.piece_type != PieceType::King,
            None => true,
        };
        to_fine && self.has_one_king(color)
    }
}

impl GameBoard {
    /// Side `c` has its king on one square only.
    pub open spec fn one_king(&self, c: Color) -> bool {
        forall|a: int, b: int|
            0 <= a < 64 && 0 <= b < 64 && #[trigger] self.board_arr@[a] == Some(Piece { piece_type: PieceType::King, color: c })
                && #[trigger] self.board_arr@[b] == Some(Piece { piece_type: PieceType::King, color: c }) ==> a == b
    }

    /// What `process_move` needs of the move that `notation` denotes for `color`: its
    /// `from` square holds a piece of `color`, a castle stays on the king's rank, and no
    /// king stands on `to`.
    pub open spec fn notation_ok(&self, notation: Seq<char>, color: Color) -> bool {
        let mv = parsed_move_spec(self.player_of(color).own_board@, notation);
        let arr = self.board_arr@;
        &&& valid_coordinates(notation)
        &&& is_color(arr[mv.from.idx()], color)
        &&& (mv.castle_option is Some ==> mv.to.idx() / 8 == mv.from.idx() / 8)
        &&& (arr[mv.to.idx()] is Some ==> arr[mv.to.idx()]->0.piece_type != PieceType::King)
    }

    /// Parses `move_str` for `color`; makes the move as a turn (see `turn_made`) if
    /// `validate_move` accepts it, and answers the move and the result; otherwise answers
    /// "Invalid move" and leaves the board as it was.
    pub fn process_move(&mut self, move_str: &str, color: Color, turn_count: usize) -> (r: Result<
        (Move, GameResult),
        String,
    >)
        requires
            old(self).wf(),
            old(self).king_bb(Color::White) != 0,
            old(self).king_bb(Color::Black) != 0,
            old(self).one_king(color),
            old(self).notation_ok(move_str@, color),
            old(self).halfmove_clock < u32::MAX,
            forall|k: u64| old(self).position_history@.contains_key(k) ==> old(self).position_history@[k] < 255,
        ensures
            ({
                let mv = parsed_move_spec(old(self).player_of(color).own_board@, move_str@);
                if old(self).valid_move_spec(
                    mv,
                    color,
                    old(self).combined_pieces,
                    old(self).white_pieces,
                    old(self).black_pieces,
                ) {
                    &&& r == Ok::<(Move, GameResult), String>((mv, final(self).game_result))
                    &&& final(self).turn_made(*old(self), turn_count, mv)
                } else {
                    &&& r matches Err(e) && e@ == "Invalid move"@
                    &&& *final(self) == *old(self)
                }
            }),
    {
        let player = if color == Color::White {
            &self.player1
        } else {
            &self.player2
        };
        let candidate = player.parse_move(move_str);
        proof {
            lemma_notation_sane(self, move_str@, color);
        }
        if !self.validate_move(candidate, color, self.combined_pieces, self.white_pieces, self.black_pieces) {
            return Err("Invalid move".to_string());
        }
        proof {
            lemma_notation_update_ok(self, move_str@, color);
        }
        self.compute_turn_items(turn_count, candidate);
        Ok((candidate, self.game_result))
    }
}

/// A move parsed from notation that `notation_ok` accepts meets what `validate_move`
/// needs of it.
pub proof fn lemma_notation_sane(g: &GameBoard, s: Seq<char>, c: Color)
    requires
        g.wf(),
        g.king_bb(c) != 0,
        g.notation_ok(s, c),
    ensures
        ({
            let mv = parsed_move_spec(g.player_of(c).own_board@, s);
            &&& is_color(g.board_arr[mv.from.idx()], c)
            &&& mv.promotion_piece_type is Some ==> {
                &&& g.board_arr[mv.from.idx()]->0.piece_type == PieceType::Pawn
                &&& (mv.to.idx() / 8 == 7 || mv.to.idx() / 8 == 0)
            }
        }),
{
    reveal(players_match);
    let mv = parsed_move_spec(g.player_of(c).own_board@, s);
    let from = mv.from.idx();
    assert(g.player_of(c).own_board[from] == own_of(g.board_arr@[from], c));
}

/// A move parsed from notation that `notation_ok` accepts, and that `validate_move`
/// accepts, is one `update_board` can make.
pub proof fn lemma_notation_update_ok(g: &GameBoard, s: Seq<char>, c: Color)
    requires
        g.wf(),
        g.king_bb(c) != 0,
        g.one_king(c),
        g.notation_ok(s, c),
        g.valid_move_spec(
            parsed_move_spec(g.player_of(c).own_board@, s),
            c,
            g.combined_pieces,
            g.white_pieces,
            g.black_pieces,
        ),
    ensures
        g.update_ok(parsed_move_spec(g.player_of(c).own_board@, s)),
{
    broadcast use crate::game::playerobj::group_board_bb;
    reveal(players_match);
    reveal(move_verdict);
    let mv = parsed_move_spec(g.player_of(c).own_board@, s);
    let arr = g.board_arr@;
    let from = mv.from.idx();
    let to = mv.to.idx();
    assert(g.player_of(c).own_board[from] == own_of(arr[from], c));
    let p = arr[from]->0;
    match mv.castle_option {
        Some(o) => {
            assert(p.piece_type == PieceType::King);
            let home = king_home(c);
            assert(arr[home] == Some(Piece { piece_type: PieceType::King, color: c }));
            assert(from == home);
            let e = castle_empty_spec(c.idx(), o.idx());
            assert(is_set(e, rook_to_sq(o, c)));
            assert(is_set(e, to));
            assert(is_set(g.combined_pieces, rook_to_sq(o, c)) == (arr[rook_to_sq(o, c)] is Some));
            assert(is_set(g.combined_pieces, to) == (arr[to] is Some));
        },
        None => {
            lemma_mask_target(arr, g.en_passant_target, from, to, c, p.piece_type);
        },
    }
}


impl GameBoard {
    /// A board in the starting position, White to move, with both players as given and the
    /// starting position recorded once in the history. Its hash is the key of the squares
    /// and of all four castling rights.
    pub fn init_game_board(precomputed_items: Arc<PrecomputedItems>, player1: Player, player2: Player) -> (r: Self)
        ensures
            r.board_arr@ == start_seq(),
            r.player1 == player1,
            r.player2 == player2,
            r.precomputed_items == precomputed_items,
            r.white_pieces == 0x000000000000FFFFu64,
            r.black_pieces == 0xFFFF000000000000u64,
            r.combined_pieces == 0x000000000000FFFFu64 | 0xFFFF000000000000u64,
            !r.in_check,
            r.white_pins == 0,
            r.black_pins == 0,
            r.game_result == GameResult::Ongoing,
            r.white_kingside && r.white_queenside && r.black_kingside && r.black_queenside,
            r.last_move == (Move {
                from: Square::A1,
                to: Square::A1,
                promotion_piece_type: None,
                castle_option: None,
                en_passant: false,
            }),
            r.en_passant_target is None,
            r.halfmove_clock == 0,
            r.zobrist_hash == board_key(r.precomputed_items.zobrist, start_seq()) ^ r.rights_key(),
            r.position_history@ == Map::<u64, u8>::empty().insert(r.zobrist_hash, 1u8),
            precomputed_items.wf() && player1.matches_start(Color::White) && player2.matches_start(Color::Black) ==> {
                &&& r.wf()
                &&& r.king_bb(Color::White) != 0
                &&& r.king_bb(Color::Black) != 0
            },
    {
        broadcast use vstd::std_specs::hash::group_hash_axioms;
        let board_arr = create_game_board();
        proof {
            assert(board_arr@ =~= start_seq());
        }

        // The hash of the starting position, from scratch.
        let mut zobrist_hash = 0u64;
        let zt = &precomputed_items.zobrist;
        for sq in 0..64usize
            invariant
                zobrist_hash == crate::position_hash::board_key_upto(*zt, board_arr@, sq as nat),
                board_arr@.len() == 64,
        {
            let ghost before = zobrist_hash;
            if let Some(piece) = board_arr[sq] {
                zobrist_hash ^= zt.piece_sq[piece.color.index()][piece.piece_type.index()][sq];
            } else {
                proof {
                    lemma_xor_swap(before, 0, 0);
                }
            }
        }
        proof {
            reveal(board_key);
        }
        // White to move: the side key stays out. All four castling rights go in.
        let ghost h0 = zobrist_hash;
        zobrist_hash ^= zt.castling[0];
        zobrist_hash ^= zt.castling[1];
        zobrist_hash ^= zt.castling[2];
        zobrist_hash ^= zt.castling[3];
        proof {
            let c0 = zt.castling[0];
            let c1 = zt.castling[1];
            let c2 = zt.castling[2];
            let c3 = zt.castling[3];
            assert((((h0 ^ c0) ^ c1) ^ c2) ^ c3 == h0 ^ (((c0 ^ c1) ^ c2) ^ c3)) by (bit_vector);
            assert(castling_key(*zt, true, true, true, true) == ((c0 ^ c1) ^ c2) ^ c3);
        }

        let mut board = GameBoard {
            player1,
            player2,
            board_arr,
            white_pieces: 0x000000000000FFFF,
            precomputed_items,
            black_pieces: 0xFFFF000000000000,
            combined_pieces: 0x000000000000FFFF | 0xFFFF000000000000,
            in_check: false,
            white_pins: 0u64,
            black_pins: 0u64,
            game_result: GameResult::Ongoing,
            white_kingside: true,
            white_queenside: true,
            black_kingside: true,
            black_queenside: true,
            last_move: Move::default(),
            en_passant_target: None,
            halfmove_clock: 0,
            position_history: HashMap::new(),
            zobrist_hash,
        };
        // The starting position counts as its first occurrence.
        board.position_history.insert(board.zobrist_hash, 1);
        proof {
            assert(board.position_history@ =~= Map::<u64, u8>::empty().insert(board.zobrist_hash, 1u8));
            if board.precomputed_items.wf() && player1.matches_start(Color::White) && player2.matches_start(Color::Black) {
                lemma_start_board_wf(&board);
            }
        }
        board
    }
}

/// A board in the starting position with both players matching it is consistent, and both
/// kings stand on it.
pub proof fn lemma_start_board_wf(g: &GameBoard)
    requires
        g.board_arr@ == start_seq(),
        g.precomputed_items.wf(),
        g.en_passant_target is None,
        g.player1.matches_start(Color::White),
        g.player2.matches_start(Color::Black),
        g.white_pieces == 0x000000000000FFFFu64,
        g.black_pieces == 0xFFFF000000000000u64,
        g.combined_pieces == 0x000000000000FFFFu64 | 0xFFFF000000000000u64,
    ensures
        g.wf(),
        g.king_bb(Color::White) != 0,
        g.king_bb(Color::Black) != 0,
{
    broadcast use crate::game::playerobj::group_board_bb;
    reveal(players_match);
    crate::game::playerobj::lemma_start_bbs(
        [0x000000000000FF00u64, 0x0000000000000042u64, 0x0000000000000024u64, 0x0000000000000081u64, 0x0000000000000008u64, 0x0000000000000010u64],
        0x000000000000FFFFu64,
        Color::White,
    );
    crate::game::playerobj::lemma_start_bbs(
        [0x00FF000000000000u64, 0x4200000000000000u64, 0x2400000000000000u64, 0x8100000000000000u64, 0x0800000000000000u64, 0x1000000000000000u64],
        0xFFFF000000000000u64,
        Color::Black,
    );
    let arr = g.board_arr@;
    assert forall|k: int| 0 <= k < 64 implies #[trigger] g.player1.own_board[k] == own_of(arr[k], Color::White) by {}
    assert forall|k: int| 0 <= k < 64 implies #[trigger] g.player2.own_board[k] == own_of(arr[k], Color::Black) by {}
    assert(is_set(g.king_bb(Color::White), 4));
    assert(is_set(g.king_bb(Color::Black), 60));
    lemma_is_set_zero(4);
    lemma_is_set_zero(60);
}


/// The lowercase hexadecimal digit of `d`, for `d < 16`.
pub open spec fn hex_digit(d: u64) -> char {
    if d < 10 {
        (48 + d) as char
    } else {
        (87 + d) as char
    }
}

/// `x` as 16 lowercase hexadecimal digits, most significant first.
pub open spec fn hex16(x: u64) -> Seq<char> {
    Seq::new(16, |i: int| hex_digit((x >> ((4 * (15 - i)) as u64)) & 15))
}

/// `x` as 16 zero-padded lowercase hexadecimal digits, most significant first.
fn hex_string(x: u64) -> (r: String)
    ensures
        r@ == hex16(x),
{
    let mut out = String::new();
    let mut i: u64 = 0;
    while i < 16
        invariant
            i <= 16,
            out@ == hex16(x).take(i as int),
        decreases 16 - i,
    {
        let sh: u64 = 4 * (15 - i);
        let d: u64 = (x >> sh) & 15;
        assert(d < 16) by (bit_vector)
            requires
                d == (x >> sh) & 15,
        ;
        let code: u8 = if d < 10 {
            (48 + d) as u8
        } else {
            (87 + d) as u8
        };
        let c = code as char;
        push_char(&mut out, c);
        proof {
            assert(hex16(x)[i as int] == c);
            assert(hex16(x).take(i + 1) =~= hex16(x).take(i as int).push(c));
        }
        i = i + 1;
    }
    proof {
        assert(hex16(x).take(16) =~= hex16(x));
    }
    out
}

/// One labelled bitboard of `bitboard_string`: `label`, then the bitboard in hexadecimal.
pub open spec fn labelled(label: Seq<char>, x: u64) -> Seq<char> {
    label + hex16(x)
}

impl GameBoard {
    /// Both players' kind bitboards, White's then Black's, each as a label (`wp`, `wn`,
    /// `wb`, `wr`, `wq`, `wk`, then `b...`) and 16 hexadecimal digits.
    pub fn bitboard_string(&self) -> (r: String)
        ensures
            r@ == labelled("wp="@, self.player1.pieces_bb[0]) + labelled(" wn="@, self.player1.pieces_bb[1])
                + labelled(" wb="@, self.player1.pieces_bb[2]) + labelled(" wr="@, self.player1.pieces_bb[3])
                + labelled(" wq="@, self.player1.pieces_bb[4]) + labelled(" wk="@, self.player1.pieces_bb[5])
                + labelled(" bp="@, self.player2.pieces_bb[0]) + labelled(" bn="@, self.player2.pieces_bb[1])
                + labelled(" bb="@, self.player2.pieces_bb[2]) + labelled(" br="@, self.player2.pieces_bb[3])
                + labelled(" bq="@, self.player2.pieces_bb[4]) + labelled(" bk="@, self.player2.pieces_bb[5]),
    {
        let w = &self.player1.pieces_bb;
        let b = &self.player2.pieces_bb;
        let mut out = String::new();
        out.append("wp=");
        out.append(hex_string(w[0]).as_str());
        out.append(" wn=");
        out.append(hex_string(w[1]).as_str());
        out.append(" wb=");
        out.append(hex_string(w[2]).as_str());
        out.append(" wr=");
        out.append(hex_string(w[3]).as_str());
        out.append(" wq=");
        out.append(hex_string(w[4]).as_str());
        out.append(" wk=");
        out.append(hex_string(w[5]).as_str());
        out.append(" bp=");
        out.append(hex_string(b[0]).as_str());
        out.append(" bn=");
        out.append(hex_string(b[1]).as_str());
        out.append(" bb=");
        out.append(hex_string(b[2]).as_str());
        out.append(" br=");
        out.append(hex_string(b[3]).as_str());
        out.append(" bq=");
        out.append(hex_string(b[4]).as_str());
        out.append(" bk=");
        out.append(hex_string(b[5]).as_str());
        proof {
            assert(out@ =~= labelled("wp="@, w[0]) + labelled(" wn="@, w[1]) + labelled(" wb="@, w[2]) + labelled(
                " wr="@,
                w[3],
            ) + labelled(" wq="@, w[4]) + labelled(" wk="@, w[5]) + labelled(" bp="@, b[0]) + labelled(" bn="@, b[1])
                + labelled(" bb="@, b[2]) + labelled(" br="@, b[3]) + labelled(" bq="@, b[4]) + labelled(" bk="@, b[5]));
        }
        out
    }
}


impl GameBoard {
    /// The Zobrist key of the position, computed from scratch: the keys of the pieces on
    /// their squares, of the castling rights held, of the en passant file, and the
    /// side-to-move key when Black is to move.
    pub open spec fn position_key(&self, black_to_move: bool) -> u64 {
        let z = self.precomputed_items.zobrist;
        board_key(z, self.board_arr@) ^ self.rights_key() ^ ep_key(z, self.en_passant_target) ^ (if black_to_move {
            z.side_to_move
        } else {
            0
        })
    }
}

/// The incrementally kept hash stays the key of the position: when the hash before a turn
/// is the key of the position with `black_to_move`, the hash after it is the key of the new
/// position with the other side to move, for a move that does not promote and does not
/// capture en passant onto an empty square.
pub proof fn lemma_turn_keeps_key(before: GameBoard, after: GameBoard, count: usize, mv: Move, black_to_move: bool)
    requires
        after.turn_made(before, count, mv),
        before.zobrist_hash == before.position_key(black_to_move),
        mv.promotion_piece_type is None,
        ep_stray_key(before.precomputed_items.zobrist, before.board_arr@, before.en_passant_target, mv) == 0,
    ensures
        after.zobrist_hash == after.position_key(!black_to_move),
{
    reveal(GameBoard::turn_made);
    let z = before.precomputed_items.zobrist;
    let st = stray_keys(z, before.board_arr@, before.en_passant_target, mv);
    lemma_xor_swap(0, 0, 0);
    assert(st == 0);
    let bk0 = board_key(z, before.board_arr@);
    let bk1 = board_key(z, after.board_arr@);
    let r0 = before.rights_key();
    let r1 = after.rights_key();
    let e0 = ep_key(z, before.en_passant_target);
    let e1 = ep_key(z, after.en_passant_target);
    let side = z.side_to_move;
    let s0: u64 = if black_to_move {
        side
    } else {
        0
    };
    let s1: u64 = if !black_to_move {
        side
    } else {
        0
    };
    let h0 = before.zobrist_hash;
    let h1 = after.zobrist_hash;
    assert(s0 ^ side == s1) by {
        if black_to_move {
            lemma_xor_swap(side, 0, 0);
        } else {
            lemma_xor_swap(0, side, 0);
            lemma_xor_swap(side, 0, 0);
        }
    }
    assert(h1 == bk1 ^ r1 ^ e1 ^ s1) by (bit_vector)
        requires
            h0 == bk0 ^ r0 ^ e0 ^ s0,
            h1 ^ bk1 == (h0 ^ bk0) ^ e0 ^ e1 ^ side ^ st ^ r0 ^ r1,
            st == 0,
            s0 ^ side == s1,
    ;
}


/// The history map fixed among those with entries `m`.
pub open spec fn canon_history(m: Map<u64, u8>) -> HashMap<u64, u8> {
    choose|h: HashMap<u64, u8>| #[trigger] h@ == m
}

/// The board a turn with `mv` makes of `b` (see `turn_made`), holding its history in the
/// fixed map of its entries.
pub open spec fn successor(b: GameBoard, count: usize, mv: Move) -> GameBoard {
    choose|n: GameBoard| n.turn_made(b, count, mv) && n.position_history == canon_history(n.position_history@)
}

/// Boards alike in every field, the history by its entries.
pub open spec fn alike(a: GameBoard, o: GameBoard) -> bool {
    &&& a.copy_of(o)
    &&& a.board_arr == o.board_arr
}

/// Two boards that a turn with `mv` makes of `b` are alike: a turn decides every field,
/// the history by its entries.
/// Two players describing side `c` of the same squares are the same.
pub proof fn lemma_player_unique(p1: Player, p2: Player, arr: Seq<Option<Piece>>, c: Color)
    requires
        p1.matches(arr, c),
        p2.matches(arr, c),
    ensures
        p1 == p2,
{
    broadcast use vstd::array::group_array_axioms;
    assert(p1.pieces_bb =~= p2.pieces_bb);
    assert(p1.own_board =~= p2.own_board);
}

/// The players of a consistent board describe its squares.
pub proof fn lemma_players_of(n: GameBoard)
    requires
        n.players_ok(),
    ensures
        n.player1.matches(n.board_arr@, Color::White),
        n.player2.matches(n.board_arr@, Color::Black),
{
    reveal(players_match);
}

/// Two boards that a turn with `mv` makes of `b` are alike: a turn decides every field,
/// the history by its entries.
pub proof fn lemma_turn_unique(b: GameBoard, count: usize, mv: Move, n1: GameBoard, n2: GameBoard)
    requires
        n1.turn_made(b, count, mv),
        n2.turn_made(b, count, mv),
    ensures
        alike(n1, n2),
{
    reveal(GameBoard::turn_made);
    broadcast use vstd::array::group_array_axioms;
    assert(n1.board_arr =~= n2.board_arr);
    lemma_players_of(n1);
    lemma_players_of(n2);
    lemma_player_unique(n1.player1, n2.player1, n1.board_arr@, Color::White);
    lemma_player_unique(n1.player2, n2.player2, n1.board_arr@, Color::Black);
    let z = b.precomputed_items.zobrist;
    let bk = board_key(z, n1.board_arr@);
    assert(n1.zobrist_hash == n2.zobrist_hash) by {
        lemma_xor_cancel(n1.zobrist_hash, bk);
        lemma_xor_cancel(n2.zobrist_hash, bk);
    }
    lemma_judge_frame(n1, n2, Color::White);
    lemma_judge_frame(n1, n2, Color::Black);
}

/// A board that a turn with `mv` makes of `b` is alike to the successor, which is such a
/// board too.
pub proof fn lemma_successor(b: GameBoard, count: usize, mv: Move, n: GameBoard)
    requires
        n.turn_made(b, count, mv),
    ensures
        successor(b, count, mv).turn_made(b, count, mv),
        successor(b, count, mv).position_history == canon_history(successor(b, count, mv).position_history@),
        alike(n, successor(b, count, mv)),
{
    reveal(GameBoard::turn_made);
    let h = canon_history(n.position_history@);
    assert(h@ == n.position_history@);
    let n2 = GameBoard { position_history: h, ..n };
    lemma_judge_frame(n, n2, Color::White);
    lemma_judge_frame(n, n2, Color::Black);
    assert(n2.turn_made(b, count, mv));
    let s = successor(b, count, mv);
    lemma_turn_unique(b, count, mv, n, s);
}

/// Alike boards have the same successors.
pub proof fn lemma_successor_alike(b1: GameBoard, b2: GameBoard, count: usize, mv: Move)
    requires
        alike(b1, b2),
        exists|n: GameBoard| n.turn_made(b1, count, mv),
    ensures
        successor(b1, count, mv) == successor(b2, count, mv),
{
    reveal(GameBoard::turn_made);
    let n = choose|n: GameBoard| n.turn_made(b1, count, mv);
    lemma_successor(b1, count, mv, n);
    let s1 = successor(b1, count, mv);
    assert(s1.turn_made(b2, count, mv));
    lemma_successor(b2, count, mv, s1);
    let s2 = successor(b2, count, mv);
    assert(s1.position_history == s2.position_history);
}


/// A turn made of a board is made of any board alike to it.
pub proof fn lemma_turn_made_alike(n: GameBoard, b1: GameBoard, b2: GameBoard, count: usize, mv: Move)
    requires
        alike(b1, b2),
        n.turn_made(b1, count, mv),
    ensures
        n.turn_made(b2, count, mv),
{
    reveal(GameBoard::turn_made);
}

/// `b` holding its history in the fixed map of its entries.
pub open spec fn canon(b: GameBoard) -> GameBoard {
    GameBoard { position_history: canon_history(b.position_history@), ..b }
}

/// A board is alike to its canonical form, and alike boards have one canonical form.
pub proof fn lemma_canon(b1: GameBoard, b2: GameBoard)
    requires
        alike(b1, b2),
    ensures
        alike(b1, canon(b1)),
        canon(b1) == canon(b2),
{
    let h = canon_history(b1.position_history@);
    assert(h@ == b1.position_history@) by {
        assert(exists|x: HashMap<u64, u8>| #[trigger] x@ == b1.position_history@);
    }
}

/// Keys the hash holds beyond the position after `mv`: that of a pawn on `to` when `mv`
/// promotes, and that of the captured pawn when an en passant capture finds its square
/// already empty.
pub open spec fn stray_keys(
    z: ZobristTable,
    arr: Seq<Option<Piece>>,
    ep: Option<usize>,
    mv: Move,
) -> u64 {
    let to = mv.to.idx();
    let c = arr[mv.from.idx()]->0.color;
    (if mv.promotion_piece_type is Some {
        z.piece_sq[c.idx()][0][to]
    } else {
        0
    }) ^ ep_stray_key(z, arr, ep, mv)
}

} // verus!
