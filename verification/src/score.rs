//! Score of one chain step (standard Puyo Puyo rules).

use vstd::prelude::*;
use crate::board::{Group, PuyoColor};

verus! {

/// Chain power by chain number: index 0 is the first chain.
pub const CHAIN_POWER: [u32; 24] = [
    0, 8, 16, 32, 64, 96, 128, 160, 192, 224, 256, 288, 320, 352, 384, 416, 448, 480, 512, 544,
    576, 608, 640, 672,
];

/// Colour bonus by the number of different colours cleared at once.
pub const COLOR_BONUS: [u32; 5] = [0, 0, 3, 6, 12];

/// Group bonus by group size: index 0 is a group of 4 puyos.
pub const GROUP_BONUS: [u32; 8] = [0, 2, 3, 4, 5, 6, 7, 10];

/// What the score of a step depends on: each cleared group's colour and size.
pub open spec fn group_sig(groups: Seq<Group>) -> Seq<(PuyoColor, nat)> {
    groups.map_values(|g: Group| (g.color, g.cells@.len()))
}

/// Number of puyos cleared.
pub open spec fn total_cleared(sig: Seq<(PuyoColor, nat)>) -> int
    decreases sig.len(),
{
    if sig.len() == 0 {
        0
    } else {
        total_cleared(sig.drop_last()) + sig.last().1
    }
}

/// Chain power of chain number `chain_num` (1-based; 0 counts as 1, and chains
/// past the table's end use its last entry).
pub open spec fn chain_power(chain_num: int) -> int {
    let i: int = if chain_num < 1 {
        0
    } else if chain_num - 1 > 23 {
        23
    } else {
        chain_num - 1
    };
    CHAIN_POWER@[i] as int
}

/// Some group of colour number `code` is cleared.
pub open spec fn color_seen(sig: Seq<(PuyoColor, nat)>, code: u8) -> bool {
    exists|k: int| 0 <= k < sig.len() && (#[trigger] sig[k]).0.code() == code
}

pub open spec fn seen_count(sig: Seq<(PuyoColor, nat)>, code: u8) -> int {
    if color_seen(sig, code) {
        1
    } else {
        0
    }
}

/// Number of different colours among the cleared groups.
pub open spec fn distinct_colors(sig: Seq<(PuyoColor, nat)>) -> int {
    seen_count(sig, 0) + seen_count(sig, 1) + seen_count(sig, 2) + seen_count(sig, 3) + seen_count(
        sig,
        4,
    )
}

pub open spec fn color_bonus(sig: Seq<(PuyoColor, nat)>) -> int {
    COLOR_BONUS@[if distinct_colors(sig) > 4 {
        4
    } else {
        distinct_colors(sig)
    }] as int
}

/// Bonus of one group of `size` puyos.
pub open spec fn one_group_bonus(size: nat) -> int {
    let excess: int = if size < 4 {
        0
    } else {
        size - 4
    };
    GROUP_BONUS@[if excess > 7 {
        7
    } else {
        excess
    }] as int
}

/// Sum of the group bonuses.
pub open spec fn group_bonus(sig: Seq<(PuyoColor, nat)>) -> int
    decreases sig.len(),
{
    if sig.len() == 0 {
        0
    } else {
        group_bonus(sig.drop_last()) + one_group_bonus(sig.last().1)
    }
}

/// Chain power plus colour bonus plus group bonus, before the minimum of 1.
pub open spec fn raw_bonus(chain_num: int, sig: Seq<(PuyoColor, nat)>) -> int {
    chain_power(chain_num) + color_bonus(sig) + group_bonus(sig)
}

/// The score of one chain step: puyos cleared x 10 x bonus, the bonus being at
/// least 1; no groups score 0.
pub open spec fn step_score(chain_num: int, sig: Seq<(PuyoColor, nat)>) -> int {
    if sig.len() == 0 {
        0
    } else {
        let b = raw_bonus(chain_num as int, sig);
        total_cleared(sig) * 10 * (if b < 1 {
            1
        } else {
            b
        })
    }
}

/// The entries of the bonus tables.
pub proof fn lemma_bonus_tables()
    ensures
        forall|i: int| 0 <= i < 24 ==> 0 <= #[trigger] CHAIN_POWER@[i] <= 672,
        forall|i: int| 0 <= i < 5 ==> 0 <= #[trigger] COLOR_BONUS@[i] <= 12,
        forall|i: int| 0 <= i < 8 ==> 0 <= #[trigger] GROUP_BONUS@[i] <= 10,
{
    assert(CHAIN_POWER@ =~= seq![
        0u32, 8, 16, 32, 64, 96, 128, 160, 192, 224, 256, 288, 320, 352, 384, 416, 448, 480, 512,
        544, 576, 608, 640, 672,
    ]);
    assert(COLOR_BONUS@ =~= seq![0u32, 0, 3, 6, 12]);
    assert(GROUP_BONUS@ =~= seq![0u32, 2, 3, 4, 5, 6, 7, 10]);
}

/// The sizes cleared are non-negative and the group bonus is at most 10 per group.
pub proof fn lemma_sums_nonneg(sig: Seq<(PuyoColor, nat)>)
    ensures
        total_cleared(sig) >= 0,
        0 <= group_bonus(sig) <= 10 * sig.len(),
    decreases sig.len(),
{
    lemma_bonus_tables();
    if sig.len() > 0 {
        lemma_sums_nonneg(sig.drop_last());
    }
}

/// Score of one chain step, from the chain number (1-based) and the groups
/// cleared in it.
pub fn calculate_step_score(chain_num: u32, groups: &[Group]) -> (score: u32)
    requires
        raw_bonus(chain_num as int, group_sig(groups@)) <= u32::MAX,
        step_score(chain_num as int, group_sig(groups@)) <= u32::MAX,
    ensures
        score == step_score(chain_num as int, group_sig(groups@)),
{
    let ghost sig = group_sig(groups@);
    if groups.len() == 0 {
        return 0;
    }
    proof {
        lemma_bonus_tables();
        lemma_sums_nonneg(sig);
        assert(total_cleared(sig) <= step_score(chain_num as int, sig)) by (nonlinear_arith)
            requires
                total_cleared(sig) >= 0,
                step_score(chain_num as int, sig) == total_cleared(sig) * 10 * (if raw_bonus(chain_num as int, sig)
                    < 1 {
                    1
                } else {
                    raw_bonus(chain_num as int, sig)
                }),
        ;
    }

    // Total number of puyos cleared
    let mut total_cleared_count: u32 = 0;
    let mut i: usize = 0;
    while i < groups.len()
        invariant
            sig == group_sig(groups@),
            i <= groups.len(),
            total_cleared_count == total_cleared(sig.take(i as int)),
            total_cleared(sig) <= u32::MAX,
        decreases groups.len() - i,
    {
        proof {
            assert(sig.take(i + 1).drop_last() =~= sig.take(i as int));
            lemma_total_prefix(sig, i as int);
        }
        total_cleared_count = total_cleared_count + groups[i].cells.len() as u32;
        i += 1;
    }
    assert(sig.take(i as int) =~= sig);

    // Chain power
    let cp_idx: usize = if chain_num == 0 {
        0
    } else if chain_num - 1 > 23 {
        23
    } else {
        (chain_num - 1) as usize
    };
    let chain_power_value = CHAIN_POWER[cp_idx];

    // Colour bonus: count distinct colours
    let mut colors_seen = [false; 5];
    let mut j: usize = 0;
    while j < groups.len()
        invariant
            sig == group_sig(groups@),
            j <= groups.len(),
            forall|code: int|
                0 <= code < 5 ==> colors_seen@[code] == exists|k: int|
                    0 <= k < j && (#[trigger] sig[k]).0.code() == code,
        decreases groups.len() - j,
    {
        let code = groups[j].color.to_u8() as usize;
        colors_seen[code] = true;
        assert(sig[j as int].0.code() == code);
        j += 1;
    }
    let mut num_colors: usize = 0;
    let mut code: usize = 0;
    while code < 5
        invariant
            code <= 5,
            num_colors <= code,
            forall|c: int| 0 <= c < 5 ==> colors_seen@[c] == color_seen(sig, c as u8),
            num_colors == partial_seen(sig, code as int),
        decreases 5 - code,
    {
        if colors_seen[code] {
            num_colors += 1;
        }
        code += 1;
    }
    let color_bonus_value = COLOR_BONUS[if num_colors > 4 {
        4
    } else {
        num_colors
    }];

    // Group bonus: sum over each group
    let mut group_bonus_value: u32 = 0;
    let mut k: usize = 0;
    while k < groups.len()
        invariant
            sig == group_sig(groups@),
            k <= groups.len(),
            group_bonus_value == group_bonus(sig.take(k as int)),
            group_bonus(sig) <= u32::MAX,
        decreases groups.len() - k,
    {
        proof {
            assert(sig.take(k + 1).drop_last() =~= sig.take(k as int));
            lemma_group_bonus_prefix(sig, k as int);
        }
        let len = groups[k].cells.len();
        let excess: usize = if len < 4 {
            0
        } else {
            len - 4
        };
        group_bonus_value = group_bonus_value + GROUP_BONUS[if excess > 7 {
            7
        } else {
            excess
        }];
        k += 1;
    }
    assert(sig.take(k as int) =~= sig);

    proof {
        reveal_with_fuel(partial_seen, 6);
        assert(chain_power_value == chain_power(chain_num as int));
        assert(num_colors == distinct_colors(sig));
        assert(color_bonus_value == color_bonus(sig));
        assert(group_bonus_value == group_bonus(sig));
    }
    // Total bonus (minimum 1)
    let raw = chain_power_value + color_bonus_value + group_bonus_value;
    let bonus = if raw < 1 {
        1
    } else {
        raw
    };
    proof {
        assert(total_cleared_count * 10 <= total_cleared_count * 10 * bonus) by (nonlinear_arith)
            requires
                bonus >= 1,
        ;
    }
    total_cleared_count * 10 * bonus
}

/// The score of a step in which every group has at least four puyos is at
/// most `6840 n + 25 n^2` for `n` puyos cleared.
pub proof fn lemma_step_score_bound(chain_num: int, sig: Seq<(PuyoColor, nat)>)
    requires
        forall|k: int| 0 <= k < sig.len() ==> (#[trigger] sig[k]).1 >= 4,
    ensures
        0 <= raw_bonus(chain_num, sig) <= 684 + 10 * sig.len(),
        4 * sig.len() <= total_cleared(sig),
        0 <= step_score(chain_num, sig) <= 6840 * total_cleared(sig) + 25 * total_cleared(sig)
            * total_cleared(sig),
{
    lemma_bonus_tables();
    lemma_sums_nonneg(sig);
    lemma_total_at_least(sig);
    let t = total_cleared(sig);
    let n = sig.len() as int;
    let b = raw_bonus(chain_num, sig);
    if n > 0 {
        let bb = if b < 1 {
            1
        } else {
            b
        };
        assert(t * 10 * bb <= 6840 * t + 25 * t * t) by (nonlinear_arith)
            requires
                1 <= bb <= 684 + 10 * n,
                4 * n <= t,
                t >= 0,
        {
            assert(t * 10 * bb <= t * 10 * (684 + 10 * n));
            assert(t * 100 * n <= t * 25 * t);
        }
        assert(0 <= t * 10 * bb) by (nonlinear_arith)
            requires
                bb >= 1,
                t >= 0,
        ;
    }
}

/// A step's score is never negative; one that clears some puyos scores at
/// least ten per puyo, and its bonus (when at least 1) is at most its score.
pub proof fn lemma_step_score_facts(chain_num: int, sig: Seq<(PuyoColor, nat)>)
    ensures
        step_score(chain_num, sig) >= 0,
        sig.len() > 0 ==> step_score(chain_num, sig) >= 10 * total_cleared(sig),
        sig.len() > 0 && total_cleared(sig) >= 1 && raw_bonus(chain_num, sig) >= 1 ==> raw_bonus(
            chain_num,
            sig,
        ) <= step_score(chain_num, sig),
{
    lemma_bonus_tables();
    lemma_sums_nonneg(sig);
    if sig.len() > 0 {
        let t = total_cleared(sig);
        let b = raw_bonus(chain_num, sig);
        let bb = if b < 1 {
            1
        } else {
            b
        };
        assert(t * 10 * bb >= 10 * t) by (nonlinear_arith)
            requires
                bb >= 1,
                t >= 0,
        ;
        assert(t >= 1 && b >= 1 ==> b <= t * 10 * bb) by (nonlinear_arith)
            requires
                bb >= 1,
                b >= 1 ==> bb == b,
                t >= 0,
        ;
    }
}

proof fn lemma_total_at_least(sig: Seq<(PuyoColor, nat)>)
    requires
        forall|k: int| 0 <= k < sig.len() ==> (#[trigger] sig[k]).1 >= 4,
    ensures
        4 * sig.len() <= total_cleared(sig),
    decreases sig.len(),
{
    if sig.len() > 0 {
        assert(sig.last() == sig[sig.len() - 1]);
        lemma_total_at_least(sig.drop_last());
    }
}

/// Number of colour numbers below `n` that occur among the groups.
pub open spec fn partial_seen(sig: Seq<(PuyoColor, nat)>, n: int) -> int
    decreases n,
{
    if n <= 0 {
        0
    } else {
        partial_seen(sig, n - 1) + seen_count(sig, (n - 1) as u8)
    }
}

proof fn lemma_total_prefix(sig: Seq<(PuyoColor, nat)>, i: int)
    requires
        0 <= i < sig.len(),
    ensures
        total_cleared(sig.take(i + 1)) == total_cleared(sig.take(i)) + sig[i].1,
        total_cleared(sig.take(i + 1)) <= total_cleared(sig),
    decreases sig.len() - i,
{
    assert(sig.take(i + 1).drop_last() =~= sig.take(i));
    if i + 1 < sig.len() {
        lemma_total_prefix(sig, i + 1);
    } else {
        assert(sig.take(i + 1) =~= sig);
    }
}

proof fn lemma_group_bonus_prefix(sig: Seq<(PuyoColor, nat)>, i: int)
    requires
        0 <= i < sig.len(),
    ensures
        group_bonus(sig.take(i + 1)) == group_bonus(sig.take(i)) + one_group_bonus(sig[i].1),
        group_bonus(sig.take(i + 1)) <= group_bonus(sig),
    decreases sig.len() - i,
{
    lemma_bonus_tables();
    assert(sig.take(i + 1).drop_last() =~= sig.take(i));
    if i + 1 < sig.len() {
        lemma_group_bonus_prefix(sig, i + 1);
    } else {
        assert(sig.take(i + 1) =~= sig);
    }
}

/// Some cleared group has colour `c`.
pub open spec fn clears_color(sig: Seq<(PuyoColor, nat)>, c: PuyoColor) -> bool {
    exists|i: int| 0 <= i < sig.len() && (#[trigger] sig[i]).0 == c
}

/// The colour bonus depends only on which colours the cleared groups have:
/// two steps that clear groups of the same colours (in any number, sizes
/// and order) get the same colour bonus.
pub proof fn lemma_color_bonus_by_colors(a: Seq<(PuyoColor, nat)>, b: Seq<(PuyoColor, nat)>)
    requires
        forall|c: PuyoColor| #[trigger] clears_color(a, c) == clears_color(b, c),
    ensures
        color_bonus(a) == color_bonus(b),
{
    assert forall|code: u8| color_seen(a, code) == color_seen(b, code) by {
        if color_seen(a, code) {
            let i = choose|i: int| 0 <= i < a.len() && (#[trigger] a[i]).0.code() == code;
            let c = a[i].0;
            assert(clears_color(a, c));
            assert(clears_color(b, c));
            let j = choose|j: int| 0 <= j < b.len() && (#[trigger] b[j]).0 == c;
            assert(b[j].0.code() == code);
        }
        if color_seen(b, code) {
            let j = choose|j: int| 0 <= j < b.len() && (#[trigger] b[j]).0.code() == code;
            let c = b[j].0;
            assert(clears_color(b, c));
            assert(clears_color(a, c));
            let i = choose|i: int| 0 <= i < a.len() && (#[trigger] a[i]).0 == c;
            assert(a[i].0.code() == code);
        }
    }
    assert(distinct_colors(a) == distinct_colors(b));
}

/// A step whose groups all have one colour gets the colour bonus of one
/// colour, however many groups it clears: its score is the number of puyos
/// cleared x 10 x the chain power plus that bonus plus the group bonuses
/// (at least 1).
pub proof fn lemma_one_color_step(chain_num: int, sig: Seq<(PuyoColor, nat)>, color: PuyoColor)
    requires
        sig.len() > 0,
        color != PuyoColor::Empty,
        forall|k: int| 0 <= k < sig.len() ==> (#[trigger] sig[k]).0 == color,
    ensures
        color_bonus(sig) == COLOR_BONUS@[1] as int,
        step_score(chain_num, sig) == total_cleared(sig) * 10 * (if chain_power(chain_num)
            + COLOR_BONUS@[1] + group_bonus(sig) < 1 {
            1
        } else {
            chain_power(chain_num) + COLOR_BONUS@[1] + group_bonus(sig)
        }),
{
    assert(sig[0].0.code() == color.code());
    assert forall|code: u8| color_seen(sig, code) == (code == color.code()) by {
        if color_seen(sig, code) {
            let i = choose|i: int| 0 <= i < sig.len() && (#[trigger] sig[i]).0.code() == code;
            assert(sig[i].0 == color);
        }
    }
    assert(distinct_colors(sig) == 1);
}

} // verus!
