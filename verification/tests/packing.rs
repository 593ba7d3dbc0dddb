use paseo_downsizer::config::Packing;
use paseo_downsizer::packing::{compute_packing, ASSET_HUB_ID, PARTS_FULL};

fn cfg() -> Packing {
    let weights = vec![("1000".to_string(), 100), ("1002".to_string(), 20)];
    Packing {
        max_chains_per_core: 6,
        hard_max_chains_per_core: 10,
        default_weight: 5,
        weights,
    }
}

#[test]
fn each_core_sums_to_full() {
    let paras: Vec<u32> = vec![1000, 1002, 1004, 1005, 1001, 1500, 1501, 1502, 2000, 2001];
    let res = compute_packing(&paras, 6, &cfg());
    for core in &res.cores {
        let sum: u32 = core.assignments.iter().map(|a| a.parts).sum();
        assert_eq!(sum, PARTS_FULL, "core {} parts must sum to full", core.core);
    }
}

#[test]
fn asset_hub_gets_dedicated_core() {
    let paras: Vec<u32> = vec![1000, 1002, 1004];
    let res = compute_packing(&paras, 6, &cfg());
    let ah_core = res
        .cores
        .iter()
        .find(|c| c.assignments.iter().any(|a| a.para_id == ASSET_HUB_ID))
        .unwrap();
    assert_eq!(ah_core.assignments.len(), 1);
    assert_eq!(ah_core.assignments[0].parts, PARTS_FULL);
}

use paseo_downsizer::packing::{bucket_load, even_split, split_parts, Para};

fn shape(res: &paseo_downsizer::packing::PackingResult) -> Vec<(u32, Vec<(u32, u32)>)> {
    res.cores
        .iter()
        .map(|c| (c.core, c.assignments.iter().map(|a| (a.para_id, a.parts)).collect()))
        .collect()
}

#[test]
fn packing_spreads_default_weights_by_load() {
    let paras: Vec<u32> = vec![1000, 1002, 1004, 1005, 1001, 1500, 1501, 1502, 2000, 2001];
    let res = compute_packing(&paras, 6, &cfg());
    assert_eq!(
        shape(&res),
        vec![
            (0, vec![(1000, 57600)]),
            (1, vec![(1002, 57600)]),
            (2, vec![(1001, 28800), (1501, 28800)]),
            (3, vec![(1004, 28800), (1502, 28800)]),
            (4, vec![(1005, 28800), (2000, 28800)]),
            (5, vec![(1500, 28800), (2001, 28800)]),
        ]
    );
    assert!(res.dropped.is_empty());
}

#[test]
fn single_core_shares_asset_hub_proportionally() {
    let res = compute_packing(&[1000, 2000], 1, &cfg());
    assert_eq!(shape(&res), vec![(0, vec![(1000, 54857), (2000, 2743)])]);
    assert!(res.dropped.is_empty());
}

#[test]
fn overflow_is_dropped_in_ascending_order() {
    let tight = Packing {
        max_chains_per_core: 1,
        hard_max_chains_per_core: 2,
        default_weight: 5,
        weights: Vec::new(),
    };
    let res = compute_packing(&[1000, 2005, 2000, 2004, 2001, 2002, 2003], 3, &tight);
    assert_eq!(
        shape(&res),
        vec![
            (0, vec![(1000, 57600)]),
            (1, vec![(2000, 28800), (2002, 28800)]),
            (2, vec![(2001, 28800), (2003, 28800)]),
        ]
    );
    assert_eq!(res.dropped, vec![2004, 2005]);
}

#[test]
fn zero_cores_drops_everything_as_given() {
    let res = compute_packing(&[2001, 1000], 0, &cfg());
    assert!(res.cores.is_empty());
    assert_eq!(res.dropped, vec![2001, 1000]);
}

#[test]
fn zero_weights_split_evenly() {
    let zero = Packing {
        max_chains_per_core: 6,
        hard_max_chains_per_core: 10,
        default_weight: 0,
        weights: vec![("1000".to_string(), 0)],
    };
    let res = compute_packing(&[1000, 2000, 2001], 4, &zero);
    assert_eq!(
        shape(&res),
        vec![(0, vec![(1000, 57600)]), (1, vec![(2000, 28800), (2001, 28800)])]
    );
}

#[test]
fn even_split_hands_leftover_to_the_first() {
    assert_eq!(even_split(7), vec![8229, 8229, 8229, 8229, 8228, 8228, 8228]);
    assert_eq!(even_split(1), vec![57600]);
    assert!(even_split(0).is_empty());
}

#[test]
fn split_parts_uses_largest_remainder() {
    let bucket = vec![
        Para { id: 1, weight: 1 },
        Para { id: 2, weight: 2 },
        Para { id: 3, weight: 4 },
    ];
    let parts = split_parts(&bucket);
    assert_eq!(parts, vec![8229, 16457, 32914]);
    assert_eq!(parts.iter().sum::<u32>(), PARTS_FULL);
    assert_eq!(bucket_load(&bucket), 7);
}

#[test]
fn split_parts_of_zero_weights_is_even() {
    let bucket = vec![Para { id: 1, weight: 0 }, Para { id: 2, weight: 0 }, Para { id: 3, weight: 0 }];
    assert_eq!(split_parts(&bucket), vec![19200, 19200, 19200]);
}

#[test]
fn nothing_dropped_while_the_hard_cap_has_room() {
    let tight = Packing {
        max_chains_per_core: 1,
        hard_max_chains_per_core: 2,
        default_weight: 5,
        weights: Vec::new(),
    };
    // Asset Hub on core 0, four others on two open cores at the hard cap of two.
    let res = compute_packing(&[1000, 2000, 2001, 2002, 2003], 3, &tight);
    assert!(res.dropped.is_empty());
    assert_eq!(res.cores.iter().map(|c| c.assignments.len()).sum::<usize>(), 5);
    // One more does not fit.
    let res = compute_packing(&[1000, 2000, 2001, 2002, 2003, 2004], 3, &tight);
    assert_eq!(res.dropped, vec![2004]);
}
