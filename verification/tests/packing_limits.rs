use paseo_downsizer::config::Packing;
use paseo_downsizer::packing::compute_packing;

fn limits(soft: u32, hard: u32) -> Packing {
    Packing {
        max_chains_per_core: soft,
        hard_max_chains_per_core: hard,
        default_weight: 5,
        weights: vec![
            ("1000".to_string(), 100),
            ("2000".to_string(), 40),
            ("2001".to_string(), 30),
            ("2002".to_string(), 20),
        ],
    }
}

#[test]
fn the_soft_cap_holds_while_the_paras_fit() {
    // Asset Hub alone on core 0; six others on two open cores, three each.
    let paras: Vec<u32> = vec![1000, 2000, 2001, 2002, 2003, 2004, 2005];
    let res = compute_packing(&paras, 3, &limits(3, 10));
    assert!(res.dropped.is_empty());
    assert!(res.cores.iter().all(|c| c.assignments.len() <= 3));
    assert_eq!(res.cores.iter().map(|c| c.assignments.len()).sum::<usize>(), 7);
}

#[test]
fn the_cap_rises_toward_the_hard_cap_when_needed() {
    let paras: Vec<u32> = vec![1000, 2000, 2001, 2002, 2003, 2004, 2005];
    let res = compute_packing(&paras, 2, &limits(3, 10));
    assert!(res.dropped.is_empty());
    assert_eq!(res.cores.iter().map(|c| c.assignments.len()).max(), Some(6));
}

#[test]
fn the_lowest_priority_paras_are_dropped_first() {
    // One open core of at most two paras: the two heaviest keep it.
    let paras: Vec<u32> = vec![2003, 2002, 1000, 2000, 2001, 2004];
    let res = compute_packing(&paras, 2, &limits(2, 2));
    let kept: Vec<u32> = res
        .cores
        .iter()
        .flat_map(|c| c.assignments.iter().map(|a| a.para_id))
        .collect();
    assert_eq!(kept, vec![1000, 2000, 2001]);
    assert_eq!(res.dropped, vec![2002, 2003, 2004]);
}
