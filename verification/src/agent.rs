//! The Q-learning agent: state encoding, greedy action selection, the
//! temporal-difference update of the value table, and the self-play
//! training loop.
use std::collections::HashMap;

use vstd::arithmetic::div_mod::lemma_mod_division_less_than_divisor;
use vstd::prelude::*;

use crate::board::all_empty;
use crate::board::count_empty;
use crate::board::wins;
use crate::board::BoardView;
use crate::board::Cell;
use crate::board::Morpion;
use crate::board::Player;
use crate::encoding::enc;
use crate::encoding::lemma_enc_bounds;
use crate::encoding::lemma_enc_key_space;
use crate::encoding::lemma_pow3_mono;
use crate::encoding::pow3;
use crate::encoding::KEY_SPACE;
use crate::fixed::div_scale;
use crate::fixed::div_scale_spec;
use crate::fixed::lemma_decay_step;
use crate::fixed::lemma_update_in_range;
use crate::fixed::mul_scale;
use crate::fixed::GAMMA_MAX;
use crate::fixed::LR_MIN;
use crate::fixed::SCALE;
use crate::fixed::VALUE_LIMIT;
use crate::rng::random_u64;

verus! {

broadcast use vstd::std_specs::hash::group_hash_axioms, vstd::array::group_array_axioms;

/// The most half-moves one training episode may run: an upper bound on
/// the moves a 9-cell game can hold, plus scheduling slack of two.
pub const MAX_HALF_MOVES: usize = 11;

/// A candidate move together with its estimated value.
pub struct BestState {
    pub spot: usize,
    pub qvalue: i64,
}

/// The abstract state of an agent.
#[verifier::ext_equal]
pub ghost struct AgentView {
    pub game: BoardView,
    pub qvalues: Map<i32, i64>,
    pub epsilon: int,
    pub learning_rate: int,
    pub min_exploration_proba: int,
    pub decay_factor: int,
    pub gamma: int,
}

/// Every key of the value table is a state key and every stored value
/// lies inside `[-VALUE_LIMIT, VALUE_LIMIT]`.
pub open spec fn table_wf(m: Map<i32, i64>) -> bool {
    forall|k: i32| #[trigger]
        m.dom().contains(k) ==> 0 <= k < KEY_SPACE && -VALUE_LIMIT <= m[k] <= VALUE_LIMIT
}

/// The value the table assigns to a state key, with absent keys read as
/// zero.
pub open spec fn qval(m: Map<i32, i64>, k: i32) -> int {
    if m.dom().contains(k) {
        m[k] as int
    } else {
        0
    }
}

/// The value the table assigns to the state reached from grid `g` when
/// player `p` plays cell `spot`.
pub open spec fn move_value(m: Map<i32, i64>, g: Seq<Cell>, p: Player, spot: int) -> int {
    qval(m, enc(g.update(spot, p.mark_spec())) as i32)
}

/// Player `p` likes estimate `a` at least as much as estimate `b`:
/// `PlayerA` seeks large values, `PlayerB` small ones.
pub open spec fn prefers_eq(p: Player, a: int, b: int) -> bool {
    if p == Player::PlayerA {
        b <= a
    } else {
        a <= b
    }
}

/// Player `p` strictly prefers estimate `a` over estimate `b`.
pub open spec fn prefers(p: Player, a: int, b: int) -> bool {
    if p == Player::PlayerA {
        b < a
    } else {
        a < b
    }
}

/// Cell `c` is the greedy move for player `p` on grid `g` under table
/// `m`: a legal cell whose reached state no legal move beats, and the
/// first such cell in index order (every earlier legal move is strictly
/// worse).
pub open spec fn greedy_spot(m: Map<i32, i64>, g: Seq<Cell>, p: Player, c: int) -> bool {
    &&& 0 <= c < 9
    &&& g[c] == Cell::Empty
    &&& forall|i: int|
        0 <= i < 9 && g[i] == Cell::Empty ==> prefers_eq(p, move_value(m, g, p, c), move_value(m, g, p, i))
    &&& forall|i: int|
        0 <= i < c && g[i] == Cell::Empty ==> prefers(p, move_value(m, g, p, c), move_value(m, g, p, i))
}

/// `v` is the best estimate player `p` can reach in one move on grid
/// `g` under table `m`: some legal move reaches it and no legal move
/// beats it.
pub open spec fn best_estimate(m: Map<i32, i64>, g: Seq<Cell>, p: Player, v: int) -> bool {
    &&& exists|i: int| 0 <= i < 9 && g[i] == Cell::Empty && move_value(m, g, p, i) == v
    &&& forall|i: int|
        0 <= i < 9 && g[i] == Cell::Empty ==> prefers_eq(p, v, move_value(m, g, p, i))
}

/// One temporal-difference training step from an unfinished position,
/// witnessed by the chosen cell `c` and the lookahead estimate `best`.
/// The mover's mark lands on `c` (the greedy cell whenever exploration
/// is pinned to zero); the board moves as `make_move` says; and the
/// entry of the reached state's key becomes the target — the raw
/// reward (in fixed point) when the move finished the game, else the
/// learning-rate share of the reward plus the discounted best response
/// from the new state — installed directly when the key is new, or
/// blended with the damped old value when it is present.
pub open spec fn td_step_rel(pre: AgentView, post: AgentView, c: int, best: int) -> bool {
    let m = pre.qvalues;
    let g = pre.game.grid;
    let mover = pre.game.joueur;
    let g1 = g.update(c, mover.mark_spec());
    let s = enc(g1) as i32;
    let win = wins(g1, mover);
    let fin = win || count_empty(g1) == 0;
    let reward: int = if !win {
        0
    } else if mover == Player::PlayerA {
        100
    } else {
        -100
    };
    let target: int = if fin {
        reward * (SCALE as int)
    } else {
        div_scale_spec(
            pre.learning_rate * (reward * (SCALE as int) + div_scale_spec(pre.gamma * best)),
        )
    };
    let stored: int = if m.dom().contains(s) {
        div_scale_spec((SCALE - pre.learning_rate) * (m[s] as int)) + target
    } else {
        target
    };
    &&& 0 <= c < 9
    &&& g[c] == Cell::Empty
    &&& (pre.epsilon == 0 ==> greedy_spot(m, g, mover, c))
    &&& (fin ==> best == 0)
    &&& (!fin ==> best_estimate(m, g1, mover.other_spec(), best))
    &&& post.game.grid == g1
    &&& post.game.finished == fin
    &&& post.game.joueur == (if fin {
        mover
    } else {
        mover.other_spec()
    })
    &&& post.qvalues == m.insert(s, stored as i64)
}

/// One scheduled decay of the exploration probability: multiply by the
/// per-episode factor in fixed point and clamp from below at the floor.
pub open spec fn decay_step(eps: int, factor: int, floor: int) -> int {
    let d = div_scale_spec(eps * factor);
    if d < floor {
        floor
    } else {
        d
    }
}

/// The exploration probability after `n` scheduled decays.
pub open spec fn decay_chain(eps: int, factor: int, floor: int, n: nat) -> int
    decreases n,
{
    if n == 0 {
        eps
    } else {
        decay_step(decay_chain(eps, factor, floor, (n - 1) as nat), factor, floor)
    }
}

/// Law: the exploration schedule never rises, never falls below its
/// floor, and decreases monotonically across scheduled episode indices:
/// every point of the decay chain lies in `[floor, eps]` and each is at
/// most its predecessor.
pub proof fn lemma_decay_chain_bounds(eps: int, factor: int, floor: int, n: nat)
    requires
        0 <= floor <= eps <= SCALE,
        0 <= factor <= SCALE,
    ensures
        floor <= decay_chain(eps, factor, floor, n) <= eps,
        decay_chain(eps, factor, floor, n) <= SCALE,
        n >= 1 ==> decay_chain(eps, factor, floor, n) <= decay_chain(
            eps,
            factor,
            floor,
            (n - 1) as nat,
        ),
    decreases n,
{
    if n > 0 {
        lemma_decay_chain_bounds(eps, factor, floor, (n - 1) as nat);
        lemma_decay_step(decay_chain(eps, factor, floor, (n - 1) as nat), factor);
    }
}

/// The self-play Q-learning agent: a board, a value table keyed by
/// state key, and the exploration and learning configuration, all in
/// fixed point (the integer `SCALE` stands for `1.0`).
pub struct SmartMorpion {
    pub game: Morpion,
    pub(crate) qvalues: HashMap<i32, i64>,
    pub(crate) epsilon: i64,
    pub(crate) learning_rate: i64,
    pub(crate) min_exploration_proba: i64,
    pub(crate) decay_factor: i64,
    pub(crate) gamma: i64,
}

impl View for SmartMorpion {
    type V = AgentView;

    closed spec fn view(&self) -> AgentView {
        AgentView {
            game: self.game@,
            qvalues: self.qvalues@,
            epsilon: self.epsilon as int,
            learning_rate: self.learning_rate as int,
            min_exploration_proba: self.min_exploration_proba as int,
            decay_factor: self.decay_factor as int,
            gamma: self.gamma as int,
        }
    }
}

impl SmartMorpion {
    /// Well-formedness: the board is well formed, the table holds only
    /// state keys and bounded values, the configuration lies in the
    /// ranges the fixed-point update is proved safe for, and the
    /// exploration probability is pinned to zero or rests at or above
    /// its floor.
    pub open spec fn wf(self) -> bool {
        &&& crate::board::board_wf(self@.game)
        &&& table_wf(self@.qvalues)
        &&& LR_MIN <= self@.learning_rate <= SCALE
        &&& 0 <= self@.gamma <= GAMMA_MAX
        &&& 0 <= self@.min_exploration_proba <= SCALE
        &&& 0 <= self@.decay_factor <= SCALE
        &&& 0 <= self@.epsilon <= SCALE
        &&& (self@.epsilon == 0 || self@.epsilon >= self@.min_exploration_proba)
    }

    /// An agent with the given configuration, an empty value table and
    /// a fresh board. The exploration probability must either be pinned
    /// to zero (deterministic play) or start at or above its floor: the
    /// decay schedule keeps it there, and that choice is the agent's
    /// invariant.
    pub fn new(
        epsilon: i64,
        min_exploration_proba: i64,
        decay_factor: i64,
        learning_rate: i64,
        gamma: i64,
    ) -> (agent: SmartMorpion)
        requires
            LR_MIN <= learning_rate <= SCALE,
            0 <= gamma <= GAMMA_MAX,
            0 <= min_exploration_proba <= SCALE,
            0 <= decay_factor <= SCALE,
            0 <= epsilon <= SCALE,
            epsilon == 0 || epsilon >= min_exploration_proba,
        ensures
            agent.wf(),
            agent@.game.grid == all_empty(),
            agent@.game.joueur == Player::PlayerA,
            !agent@.game.finished,
            agent@.qvalues == Map::<i32, i64>::empty(),
            agent@.epsilon == epsilon,
            agent@.learning_rate == learning_rate,
            agent@.min_exploration_proba == min_exploration_proba,
            agent@.decay_factor == decay_factor,
            agent@.gamma == gamma,
    {
        SmartMorpion {
            game: Morpion::default(),
            qvalues: HashMap::new(),
            epsilon,
            learning_rate,
            min_exploration_proba,
            decay_factor,
            gamma,
        }
    }

    /// The state key of a grid: for each cell, in index order, add
    /// nothing when empty, `3^index` for a `PlayerA` mark and
    /// `2 * 3^index` for a `PlayerB` mark.
    pub fn get_state(grid: &[Cell; 9]) -> (state: i32)
        ensures
            state as int == enc(grid@),
            0 <= state < KEY_SPACE,
    {
        proof {
            lemma_enc_key_space(grid@);
        }
        let mut state: i32 = 0;
        let mut i: usize = 9;
        while i > 0
            invariant
                i <= 9,
                state as int == enc(grid@.subrange(i as int, 9)),
                0 <= state,
                (state as int) < pow3((9 - i) as nat),
            decreases i,
        {
            i = i - 1;
            proof {
                assert(grid@.subrange(i as int, 9).subrange(1, (9 - i) as int) =~= grid@.subrange(
                    i as int + 1,
                    9,
                ));
                lemma_enc_bounds(grid@.subrange(i as int, 9));
                lemma_pow3_mono((8 - i) as nat, 8);
                assert(pow3(8) == 6561) by {
                    reveal_with_fuel(pow3, 9);
                }
            }
            let w: i32 = match grid[i] {
                Cell::Empty => 0,
                Cell::PlayerA => 1,
                Cell::PlayerB => 2,
            };
            state = 3 * state + w;
        }
        proof {
            assert(grid@.subrange(0, 9) =~= grid@);
        }
        state
    }

    /// The state key of the agent's own board.
    pub fn get_self_state(&mut self) -> (state: i32)
        ensures
            *final(self) == *old(self),
            state as int == enc(old(self)@.game.grid),
            0 <= state < KEY_SPACE,
    {
        SmartMorpion::get_state(&self.game.cells())
    }

    /// The greedy move: over every legal move, look up the value of the
    /// state the move would reach (zero when absent) and keep the first
    /// candidate strictly better than the running best, the running
    /// best starting extreme enough that the first candidate always
    /// replaces it. `PlayerA` maximizes, `PlayerB` minimizes; the
    /// returned move is the first legal cell, in index order, that
    /// attains the extremal estimate.
    pub fn choose_action(&mut self) -> (best: BestState)
        requires
            old(self).wf(),
            !old(self)@.game.finished,
        ensures
            *final(self) == *old(self),
            best.spot < 9,
            old(self)@.game.grid[best.spot as int] == Cell::Empty,
            best.qvalue as int == move_value(
                old(self)@.qvalues,
                old(self)@.game.grid,
                old(self)@.game.joueur,
                best.spot as int,
            ),
            -VALUE_LIMIT <= best.qvalue <= VALUE_LIMIT,
            forall|i: int|
                0 <= i < 9 && old(self)@.game.grid[i] == Cell::Empty ==> prefers_eq(
                    old(self)@.game.joueur,
                    best.qvalue as int,
                    move_value(
                        old(self)@.qvalues,
                        old(self)@.game.grid,
                        old(self)@.game.joueur,
                        i,
                    ),
                ),
            forall|i: int|
                0 <= i < best.spot && old(self)@.game.grid[i] == Cell::Empty ==> prefers(
                    old(self)@.game.joueur,
                    best.qvalue as int,
                    move_value(
                        old(self)@.qvalues,
                        old(self)@.game.grid,
                        old(self)@.game.joueur,
                        i,
                    ),
                ),
            greedy_spot(
                old(self)@.qvalues,
                old(self)@.game.grid,
                old(self)@.game.joueur,
                best.spot as int,
            ),
            best_estimate(
                old(self)@.qvalues,
                old(self)@.game.grid,
                old(self)@.game.joueur,
                best.qvalue as int,
            ),
    {
        let ghost m = self@.qvalues;
        let ghost g = self@.game.grid;
        let joueur = self.game.joueur();
        let possibilities = self.game.get_valid_moves();
        let maximizing = joueur == Player::PlayerA;
        let mut best = BestState {
            spot: 0,
            qvalue: if maximizing {
                -(VALUE_LIMIT + 1)
            } else {
                VALUE_LIMIT + 1
            },
        };
        let mut j: usize = 0;
        while j < possibilities.len()
            invariant
                old(self).wf(),
                *self == *old(self),
                m == self@.qvalues,
                g == self@.game.grid,
                joueur == self@.game.joueur,
                maximizing == (joueur == Player::PlayerA),
                j <= possibilities@.len(),
                possibilities@.len() == count_empty(g),
                forall|t: int|
                    0 <= t < possibilities@.len() ==> possibilities@[t] < 9 && g[possibilities@[t] as int]
                        == Cell::Empty,
                forall|i: int| 0 <= i < 9 && g[i] == Cell::Empty ==> possibilities@.contains(i as usize),
                forall|t: int, u: int|
                    0 <= t < u < possibilities@.len() ==> possibilities@[t] < possibilities@[u],
                j == 0 ==> best.spot == 0 && best.qvalue == (if maximizing {
                    -(VALUE_LIMIT + 1) as int
                } else {
                    (VALUE_LIMIT + 1) as int
                }),
                j > 0 ==> best.spot < 9 && g[best.spot as int] == Cell::Empty && best.qvalue as int
                    == move_value(m, g, joueur, best.spot as int) && -VALUE_LIMIT <= best.qvalue
                    <= VALUE_LIMIT,
                j > 0 ==> exists|t: int| 0 <= t < j && possibilities@[t] == best.spot,
                forall|t: int|
                    0 <= t < j ==> prefers_eq(
                        joueur,
                        best.qvalue as int,
                        move_value(m, g, joueur, possibilities@[t] as int),
                    ),
                forall|t: int|
                    0 <= t < j && possibilities@[t] < best.spot ==> prefers(
                        joueur,
                        best.qvalue as int,
                        move_value(m, g, joueur, possibilities@[t] as int),
                    ),
            decreases possibilities@.len() - j,
        {
            let spot = possibilities[j];
            let mut future_grid = self.game.cells();
            future_grid[spot] = joueur.mark();
            let future_state = SmartMorpion::get_state(&future_grid);
            let v: i64 = match self.qvalues.get(&future_state) {
                Some(x) => *x,
                None => 0,
            };
            proof {
                assert(future_grid@ == g.update(spot as int, joueur.mark_spec()));
                assert((enc(g.update(spot as int, joueur.mark_spec())) as i32) == future_state);
                assert(v as int == move_value(m, g, joueur, spot as int));
            }
            let better = if maximizing {
                v > best.qvalue
            } else {
                v < best.qvalue
            };
            if better {
                best = BestState { spot, qvalue: v };
                proof {
                    assert(possibilities@[j as int] == best.spot);
                }
            } else {
                proof {
                    assert forall|t: int|
                        0 <= t < j + 1 && possibilities@[t] < best.spot implies prefers(
                        joueur,
                        best.qvalue as int,
                        move_value(m, g, joueur, possibilities@[t] as int),
                    ) by {
                        if t == j {
                            let w = choose|w: int| 0 <= w < j && possibilities@[w] == best.spot;
                            assert(possibilities@[w] > possibilities@[j as int]);
                        }
                    }
                }
            }
            j = j + 1;
        }
        proof {
            assert forall|i: int|
                0 <= i < 9 && g[i] == Cell::Empty implies prefers_eq(
                joueur,
                best.qvalue as int,
                move_value(m, g, joueur, i),
            ) by {
                assert(possibilities@.contains(i as usize));
                let t = choose|t: int|
                    0 <= t < possibilities@.len() && possibilities@[t] == (i as usize);
                assert(prefers_eq(
                    joueur,
                    best.qvalue as int,
                    move_value(m, g, joueur, possibilities@[t] as int),
                ));
            }
            assert forall|i: int|
                0 <= i < best.spot && g[i] == Cell::Empty implies prefers(
                joueur,
                best.qvalue as int,
                move_value(m, g, joueur, i),
            ) by {
                assert(possibilities@.contains(i as usize));
                let t = choose|t: int|
                    0 <= t < possibilities@.len() && possibilities@[t] == (i as usize);
                assert(prefers(
                    joueur,
                    best.qvalue as int,
                    move_value(m, g, joueur, possibilities@[t] as int),
                ));
            }
            assert(best_estimate(m, g, joueur, best.qvalue as int)) by {
                assert(0 <= best.spot < 9 && g[best.spot as int] == Cell::Empty && move_value(
                    m,
                    g,
                    joueur,
                    best.spot as int,
                ) == best.qvalue as int);
            }
        }
        best
    }

    /// One half-move of a training episode: explore with probability
    /// epsilon (a uniformly random legal move) or play the greedy move,
    /// then update the value table entry of the state the move reached
    /// with the temporal-difference target: the raw reward when the
    /// episode just finished, else the learning-rate-scaled discounted
    /// best response from the new state.
    fn training_step(&mut self)
        requires
            old(self).wf(),
            !old(self)@.game.finished,
        ensures
            final(self).wf(),
            final(self)@.epsilon == old(self)@.epsilon,
            final(self)@.learning_rate == old(self)@.learning_rate,
            final(self)@.gamma == old(self)@.gamma,
            final(self)@.min_exploration_proba == old(self)@.min_exploration_proba,
            final(self)@.decay_factor == old(self)@.decay_factor,
            forall|k: i32| #[trigger]
                old(self)@.qvalues.dom().contains(k) ==> final(self)@.qvalues.dom().contains(k),
            exists|c: int, best: int| td_step_rel(old(self)@, final(self)@, c, best),
    {
        let ghost m = self@.qvalues;
        let ghost g = self@.game.grid;
        let ghost mover = self@.game.joueur;
        let chosen: usize;
        let r = random_u64();
        let explore = r % (SCALE as u64) < (self.epsilon as u64);
        if explore {
            let moves = self.game.get_valid_moves();
            let r2 = random_u64();
            proof {
                lemma_mod_division_less_than_divisor(r2 as int, moves@.len() as int);
            }
            let idx = (r2 % (moves.len() as u64)) as usize;
            chosen = moves[idx];
        } else {
            chosen = self.choose_action().spot;
        }
        proof {
            assert(old(self)@.epsilon == 0 ==> greedy_spot(m, g, mover, chosen as int));
        }
        let reward = self.game.make_move(&chosen);
        let ghost g1 = self@.game.grid;
        let new_state = self.get_self_state();
        let lr = self.learning_rate;
        let gamma = self.gamma;
        let ghost mut best_g: int = 0int;
        let added: i64;
        if self.game.is_finished() {
            added = reward * SCALE;
        } else {
            let b2 = self.choose_action();
            proof {
                best_g = b2.qvalue as int;
                lemma_update_in_range(0, best_g, reward as int, lr as int, gamma as int);
            }
            let gb = mul_scale(gamma, b2.qvalue);
            let inner = reward * SCALE + gb;
            added = mul_scale(lr, inner);
        }
        let cur: Option<i64> = match self.qvalues.get(&new_state) {
            Some(x) => Some(*x),
            None => None,
        };
        match cur {
            Some(v) => {
                proof {
                    lemma_update_in_range(v as int, best_g, reward as int, lr as int, gamma as int);
                }
                let damped = div_scale((SCALE - lr) * v);
                self.qvalues.insert(new_state, damped + added);
            },
            None => {
                self.qvalues.insert(new_state, added);
            },
        }
        proof {
            assert forall|k: i32| #[trigger]
                self@.qvalues.dom().contains(k) implies 0 <= k < KEY_SPACE && -VALUE_LIMIT
                <= self@.qvalues[k] <= VALUE_LIMIT by {
                if k != new_state {
                    assert(m.dom().contains(k));
                }
            }
            assert(g1 == g.update(chosen as int, mover.mark_spec()));
            assert((enc(g1) as i32) == new_state);
            assert(td_step_rel(old(self)@, self@, chosen as int, best_g));
        }
    }

    /// Run `n_episodes` self-play episodes: each plays at most
    /// `MAX_HALF_MOVES` half-moves (every one a `td_step_rel` update)
    /// or until the board reports finished; after each episode the
    /// exploration probability decays toward its floor (unless pinned
    /// to zero) and the board is reset. The configuration is untouched
    /// and the value table only gains keys — and gains at least one
    /// whenever an episode starts on an unfinished board. When not
    /// pinned to zero the exploration probability follows `decay_chain`
    /// exactly: it never rises and never falls below its floor.
    pub fn main_loop(&mut self, n_episodes: i32)
        requires
            old(self).wf(),
        ensures
            final(self).wf(),
            final(self)@.learning_rate == old(self)@.learning_rate,
            final(self)@.gamma == old(self)@.gamma,
            final(self)@.min_exploration_proba == old(self)@.min_exploration_proba,
            final(self)@.decay_factor == old(self)@.decay_factor,
            forall|k: i32| #[trigger]
                old(self)@.qvalues.dom().contains(k) ==> final(self)@.qvalues.dom().contains(k),
            final(self)@.epsilon <= old(self)@.epsilon,
            old(self)@.epsilon == 0 ==> final(self)@.epsilon == 0,
            n_episodes >= 1 && old(self)@.epsilon != 0 ==> final(self)@.epsilon >= old(
                self,
            )@.min_exploration_proba,
            n_episodes >= 1 && old(self)@.epsilon != 0 ==> final(self)@.epsilon == decay_chain(
                old(self)@.epsilon,
                old(self)@.decay_factor,
                old(self)@.min_exploration_proba,
                n_episodes as nat,
            ),
            (n_episodes >= 1 && !old(self)@.game.finished) || n_episodes >= 2
                ==> final(self)@.qvalues.dom() != Set::<i32>::empty(),
            n_episodes >= 1 ==> final(self)@.game.grid == all_empty() && final(self)@.game.joueur
                == Player::PlayerA && !final(self)@.game.finished,
            n_episodes <= 0 ==> *final(self) == *old(self),
    {
        let mut i: i32 = 0;
        while i < n_episodes
            invariant
                0 <= i,
                i > 0 ==> i <= n_episodes,
                self.wf(),
                self@.learning_rate == old(self)@.learning_rate,
                self@.gamma == old(self)@.gamma,
                self@.min_exploration_proba == old(self)@.min_exploration_proba,
                self@.decay_factor == old(self)@.decay_factor,
                forall|k: i32| #[trigger]
                    old(self)@.qvalues.dom().contains(k) ==> self@.qvalues.dom().contains(k),
                self@.epsilon <= old(self)@.epsilon,
                old(self)@.epsilon == 0 ==> self@.epsilon == 0,
                old(self)@.epsilon != 0 ==> self@.epsilon == decay_chain(
                    old(self)@.epsilon,
                    old(self)@.decay_factor,
                    old(self)@.min_exploration_proba,
                    i as nat,
                ),
                i >= 1 && old(self)@.epsilon != 0 ==> self@.epsilon
                    >= self@.min_exploration_proba,
                (i >= 1 && !old(self)@.game.finished) || i >= 2 ==> exists|k: i32|
                    self@.qvalues.dom().contains(k),
                i >= 1 ==> self@.game.grid == all_empty() && self@.game.joueur == Player::PlayerA
                    && !self@.game.finished,
                i == 0 ==> *self == *old(self),
            decreases n_episodes - i,
        {
            let ghost start = *self;
            let run_episode = !self.game.is_finished();
            if run_episode {
                self.training_step();
                proof {
                    let (c, best) = choose|c: int, best: int| td_step_rel(start@, self@, c, best);
                    assert(td_step_rel(start@, self@, c, best));
                    assert(self@.qvalues.dom().contains(
                        (enc(start@.game.grid.update(c, start@.game.joueur.mark_spec())) as i32),
                    ));
                }
                let mut y: usize = 1;
                while y < MAX_HALF_MOVES
                    invariant
                        1 <= y <= MAX_HALF_MOVES,
                        self.wf(),
                        self@.epsilon == start@.epsilon,
                        self@.learning_rate == start@.learning_rate,
                        self@.gamma == start@.gamma,
                        self@.min_exploration_proba == start@.min_exploration_proba,
                        self@.decay_factor == start@.decay_factor,
                        forall|k: i32| #[trigger]
                            start@.qvalues.dom().contains(k) ==> self@.qvalues.dom().contains(k),
                        exists|k: i32| self@.qvalues.dom().contains(k),
                    decreases MAX_HALF_MOVES - y,
                {
                    if self.game.is_finished() {
                        break ;
                    }
                    let ghost pre = self@.qvalues;
                    self.training_step();
                    proof {
                        let k = choose|k: i32| pre.dom().contains(k);
                        assert(self@.qvalues.dom().contains(k));
                    }
                    y = y + 1;
                }
            }
            let ghost mid = self@.qvalues;
            proof {
                assert(run_episode ==> exists|k: i32| mid.dom().contains(k));
            }
            let ghost eps_pre = self@.epsilon;
            if self.epsilon != 0 {
                proof {
                    lemma_decay_step(self@.epsilon, self@.decay_factor);
                }
                let d = mul_scale(self.epsilon, self.decay_factor);
                self.epsilon = if d < self.min_exploration_proba {
                    self.min_exploration_proba
                } else {
                    d
                };
            }
            proof {
                if old(self)@.epsilon != 0 {
                    assert((((i + 1) as nat) - 1) as nat == i as nat);
                    if eps_pre == 0 {
                        // The chain can only reach zero over a zero floor,
                        // and then one more step keeps it at zero.
                        assert(self@.min_exploration_proba == 0);
                        lemma_decay_step(0, self@.decay_factor);
                        assert(self@.epsilon == decay_step(
                            eps_pre,
                            self@.decay_factor,
                            self@.min_exploration_proba,
                        ));
                    }
                    assert(self@.epsilon == decay_chain(
                        old(self)@.epsilon,
                        old(self)@.decay_factor,
                        old(self)@.min_exploration_proba,
                        (i + 1) as nat,
                    ));
                }
            }
            self.game.reset();
            proof {
                assert(self@.qvalues == mid);
                assert(i >= 1 ==> run_episode);
                if run_episode {
                    let k = choose|k: i32| mid.dom().contains(k);
                    assert(self@.qvalues.dom().contains(k));
                }
            }
            i = i + 1;
        }
        proof {
            if (n_episodes >= 1 && !old(self)@.game.finished) || n_episodes >= 2 {
                let k = choose|k: i32| self@.qvalues.dom().contains(k);
                assert(!Set::<i32>::empty().contains(k));
            }
        }
    }

    /// Pin exploration to zero for deterministic play and evaluation:
    /// `main_loop` then never explores and the probability stays zero.
    pub fn set_epsilon_zero(&mut self)
        requires
            old(self).wf(),
        ensures
            final(self).wf(),
            final(self)@.epsilon == 0,
            final(self)@.game == old(self)@.game,
            final(self)@.qvalues == old(self)@.qvalues,
            final(self)@.learning_rate == old(self)@.learning_rate,
            final(self)@.gamma == old(self)@.gamma,
            final(self)@.min_exploration_proba == old(self)@.min_exploration_proba,
            final(self)@.decay_factor == old(self)@.decay_factor,
    {
        self.epsilon = 0;
    }

    /// The current exploration probability, in fixed point.
    pub fn epsilon(&self) -> (e: i64)
        ensures
            e as int == self@.epsilon,
    {
        self.epsilon
    }

    /// The exploration floor, in fixed point.
    pub fn min_exploration_proba(&self) -> (e: i64)
        ensures
            e as int == self@.min_exploration_proba,
    {
        self.min_exploration_proba
    }

    /// Replace the value table with the entries of a persisted table.
    /// Succeeds exactly when every key is a state key and every value
    /// lies in the stored range; the first offending entry names the
    /// error and the table is untouched on failure.
    pub fn load_values(&mut self, entries: &Vec<(i32, i64)>) -> (r: Result<(), TableError>)
        requires
            old(self).wf(),
        ensures
            final(self).wf(),
            final(self)@.game == old(self)@.game,
            final(self)@.epsilon == old(self)@.epsilon,
            final(self)@.learning_rate == old(self)@.learning_rate,
            final(self)@.gamma == old(self)@.gamma,
            final(self)@.min_exploration_proba == old(self)@.min_exploration_proba,
            final(self)@.decay_factor == old(self)@.decay_factor,
            r is Ok <==> (forall|t: int| 0 <= t < entries@.len() ==> entry_ok(#[trigger] entries@[t])),
            r is Ok ==> final(self)@.qvalues == map_of_entries(entries@),
            r is Err ==> final(self)@.qvalues == old(self)@.qvalues,
            r matches Err(e) ==> exists|t: int|
                0 <= t < entries@.len() && !entry_ok(#[trigger] entries@[t]) && (forall|u: int|
                    0 <= u < t ==> entry_ok(#[trigger] entries@[u])) && e == (
                if 0 <= entries@[t].0 < KEY_SPACE {
                    TableError::ValueOutOfRange
                } else {
                    TableError::KeyOutOfRange
                }),
    {
        let mut t: usize = 0;
        while t < entries.len()
            invariant
                t <= entries@.len(),
                forall|u: int| 0 <= u < t ==> entry_ok(#[trigger] entries@[u]),
                *self == *old(self),
                old(self).wf(),
            decreases entries@.len() - t,
        {
            let (k, v) = entries[t];
            if k < 0 || k >= KEY_SPACE {
                return Err(TableError::KeyOutOfRange);
            }
            if v < -VALUE_LIMIT || v > VALUE_LIMIT {
                return Err(TableError::ValueOutOfRange);
            }
            t = t + 1;
        }
        self.qvalues = HashMap::new();
        let mut t2: usize = 0;
        while t2 < entries.len()
            invariant
                t2 <= entries@.len(),
                forall|u: int| 0 <= u < entries@.len() ==> entry_ok(#[trigger] entries@[u]),
                self@.qvalues == map_of_entries(entries@.subrange(0, t2 as int)),
                table_wf(self@.qvalues),
                self@.game == old(self)@.game,
                self@.epsilon == old(self)@.epsilon,
                self@.learning_rate == old(self)@.learning_rate,
                self@.gamma == old(self)@.gamma,
                self@.min_exploration_proba == old(self)@.min_exploration_proba,
                self@.decay_factor == old(self)@.decay_factor,
            decreases entries@.len() - t2,
        {
            let (k, v) = entries[t2];
            self.qvalues.insert(k, v);
            proof {
                assert(entries@.subrange(0, t2 + 1).drop_last() =~= entries@.subrange(
                    0,
                    t2 as int,
                ));
                assert(entries@.subrange(0, t2 + 1).last() == entries@[t2 as int]);
            }
            t2 = t2 + 1;
        }
        proof {
            assert(entries@.subrange(0, entries@.len() as int) =~= entries@);
        }
        Ok(())
    }

    /// Every entry of the value table, in increasing key order, for
    /// persisting outside the library.
    pub fn export_values(&self) -> (out: Vec<(i32, i64)>)
        requires
            self.wf(),
        ensures
            forall|t: int|
                0 <= t < out@.len() ==> self@.qvalues.dom().contains(#[trigger] out@[t].0)
                    && self@.qvalues[out@[t].0] == out@[t].1,
            forall|k: i32| #[trigger]
                self@.qvalues.dom().contains(k) ==> exists|t: int|
                    0 <= t < out@.len() && out@[t].0 == k,
            forall|t: int, u: int| 0 <= t < u < out@.len() ==> out@[t].0 < out@[u].0,
    {
        let mut out: Vec<(i32, i64)> = Vec::new();
        let mut k: i32 = 0;
        while k < KEY_SPACE
            invariant
                0 <= k <= KEY_SPACE,
                forall|t: int|
                    0 <= t < out@.len() ==> self@.qvalues.dom().contains(#[trigger] out@[t].0)
                        && self@.qvalues[out@[t].0] == out@[t].1 && out@[t].0 < k,
                forall|kk: i32|
                    0 <= kk < k && #[trigger] self@.qvalues.dom().contains(kk) ==> exists|t: int|
                        0 <= t < out@.len() && out@[t].0 == kk,
                forall|t: int, u: int| 0 <= t < u < out@.len() ==> out@[t].0 < out@[u].0,
            decreases KEY_SPACE - k,
        {
            let ghost prev = out@;
            match self.qvalues.get(&k) {
                Some(v) => {
                    out.push((k, *v));
                },
                None => {},
            }
            proof {
                assert forall|kk: i32|
                    0 <= kk < k + 1 && #[trigger] self@.qvalues.dom().contains(
                        kk,
                    ) implies exists|t: int| 0 <= t < out@.len() && out@[t].0 == kk by {
                    if kk == k {
                        assert(out@[out@.len() - 1].0 == kk);
                    } else {
                        let t = choose|t: int| 0 <= t < prev.len() && prev[t].0 == kk;
                        assert(out@[t].0 == kk);
                    }
                }
            }
            k = k + 1;
        }
        out
    }
}

/// The reasons a persisted value table is rejected: a key outside the
/// state-key space, or a value outside the fixed-point range the update
/// is proved safe for.
#[derive(Clone, Copy, PartialEq, Eq, Structural, Debug)]
pub enum TableError {
    KeyOutOfRange,
    ValueOutOfRange,
}

/// A table entry whose key fits the state-key space and whose value
/// fits the stored range.
pub open spec fn entry_ok(e: (i32, i64)) -> bool {
    0 <= e.0 < KEY_SPACE && -VALUE_LIMIT <= e.1 <= VALUE_LIMIT
}

/// The map a sequence of entries builds, later entries overwriting
/// earlier ones with the same key.
pub open spec fn map_of_entries(s: Seq<(i32, i64)>) -> Map<i32, i64>
    decreases s.len(),
{
    if s.len() == 0 {
        Map::empty()
    } else {
        map_of_entries(s.drop_last()).insert(s.last().0, s.last().1)
    }
}

impl Default for SmartMorpion {
    /// The stock configuration: exploration probability `1.0` decaying
    /// by a factor of `0.999` per episode toward a floor of `0.1`,
    /// learning rate `0.1`, discount factor `0.99`, an empty value
    /// table and a fresh board.
    fn default() -> (agent: SmartMorpion)
        ensures
            agent.wf(),
            agent@.game.grid == all_empty(),
            agent@.game.joueur == Player::PlayerA,
            !agent@.game.finished,
            agent@.qvalues == Map::<i32, i64>::empty(),
            agent@.epsilon == SCALE,
            agent@.min_exploration_proba == 100_000,
            agent@.decay_factor == 999_000,
            agent@.learning_rate == 100_000,
            agent@.gamma == 990_000,
    {
        SmartMorpion::new(SCALE, 100_000, 999_000, 100_000, 990_000)
    }
}

} // verus!
