use windows_platform_probes::core_affinity::{classify, node_pairs, representative_pairs, Placement};
use windows_platform_probes::fingerprint::ProcessorPlace;

fn place(number: u8, efficiency_class: u8, cache_domain: Option<u32>) -> ProcessorPlace {
    ProcessorPlace {
        number,
        core: u32::from(number),
        efficiency_class,
        cache_domain,
        numa_node: 0,
    }
}

fn placements(pairs: &[(Placement, (ProcessorPlace, ProcessorPlace))]) -> Vec<Placement> {
    pairs.iter().map(|(placement, _)| *placement).collect()
}

#[test]
fn same_cache_and_same_class_is_classified_as_such() {
    let a = place(0, 1, Some(0));
    let b = place(1, 1, Some(0));
    assert_eq!(classify(a, b), Placement::SameCacheSameClass);
}

#[test]
fn a_differing_class_alone_is_cross_class() {
    let a = place(0, 1, Some(0));
    let b = place(1, 0, Some(0));
    assert_eq!(classify(a, b), Placement::SameCacheCrossClass);
}

#[test]
fn a_differing_cache_alone_is_cross_cache() {
    let a = place(0, 1, Some(0));
    let b = place(6, 1, Some(1));
    assert_eq!(classify(a, b), Placement::CrossCacheSameClass);
}

#[test]
fn differing_in_both_is_cross_cross() {
    let a = place(0, 1, Some(0));
    let b = place(6, 0, Some(1));
    assert_eq!(classify(a, b), Placement::CrossCacheCrossClass);
}

#[test]
fn classification_is_symmetric_in_the_two_ends() {
    let a = place(0, 1, Some(0));
    let b = place(6, 0, Some(1));
    assert_eq!(classify(a, b), classify(b, a));
}

#[test]
fn a_machine_with_no_partitioning_cache_still_classifies() {
    let a = place(0, 1, None);
    let b = place(1, 0, None);
    assert_eq!(classify(a, b), Placement::SameCacheCrossClass);
}

#[test]
fn a_homogeneous_single_cache_machine_offers_only_one_placement() {
    let places: Vec<_> = (0..4).map(|n| place(n, 0, Some(0))).collect();
    let pairs = representative_pairs(&places);

    assert_eq!(
        placements(&pairs),
        vec![Placement::SameCacheSameClass],
        "a machine that cannot express a placement must report it absent, not fabricate one"
    );
}

#[test]
fn a_heterogeneous_two_cache_machine_offers_all_four() {
    let mut places = Vec::new();
    let mut number = 0_u8;
    for cache in 0..2_u32 {
        for class in 0..2_u8 {
            for _ in 0..2 {
                places.push(place(number, class, Some(cache)));
                number += 1;
            }
        }
    }
    let pairs = representative_pairs(&places);

    assert_eq!(pairs.len(), 4, "all four placements must be expressible");
    for (placement, (producer, consumer)) in pairs {
        assert_eq!(
            classify(producer, consumer),
            placement,
            "the pair chosen for a placement must actually be that placement"
        );
    }
}

#[test]
fn a_machine_whose_classes_follow_its_caches_offers_only_two() {
    let mut places = Vec::new();
    for number in 0..12_u8 {
        let side = u32::from(number) / 6;
        places.push(place(number, side as u8, Some(side)));
    }
    let pairs = representative_pairs(&places);

    let mut found = placements(&pairs);
    found.sort_unstable();
    assert_eq!(
        found,
        vec![Placement::SameCacheSameClass, Placement::CrossCacheCrossClass],
        "confounded classes and caches must yield exactly the two pure placements"
    );
}

#[test]
fn a_pair_never_puts_both_ends_on_one_processor() {
    let places: Vec<_> = (0..4).map(|n| place(n, n % 2, Some(u32::from(n) / 2))).collect();
    for (_, (producer, consumer)) in representative_pairs(&places) {
        assert_ne!(
            producer.number, consumer.number,
            "a queue with both ends on one core measures scheduling, not coherence"
        );
    }
}

#[test]
fn every_expressible_placement_is_chosen_exactly_once() {
    let places: Vec<_> = (0..8).map(|n| place(n, n % 2, Some(u32::from(n) / 4))).collect();
    let pairs = representative_pairs(&places);

    let mut labels: Vec<_> = pairs.iter().map(|(p, _)| p.label()).collect();
    labels.sort_unstable();
    let before = labels.len();
    labels.dedup();
    assert_eq!(before, labels.len(), "no placement may be measured twice");
}

#[test]
fn placements_come_out_in_their_declared_order_with_the_first_pair_for_each() {
    let places: Vec<_> = (0..8).map(|n| place(n, n % 2, Some(u32::from(n) / 4))).collect();
    let pairs = representative_pairs(&places);

    assert_eq!(
        placements(&pairs),
        vec![
            Placement::SameCacheSameClass,
            Placement::SameCacheCrossClass,
            Placement::CrossCacheSameClass,
            Placement::CrossCacheCrossClass,
        ]
    );
    let (producer, consumer) = pairs[0].1;
    assert_eq!((producer.number, consumer.number), (0, 2));
    let (producer, consumer) = pairs[1].1;
    assert_eq!((producer.number, consumer.number), (0, 1));
}

#[test]
fn a_single_processor_offers_no_placement() {
    let places = vec![place(0, 0, Some(0))];
    assert!(representative_pairs(&places).is_empty());
}

#[test]
fn node_pairs_pick_one_pair_for_each_pair_of_nodes_from_the_lower() {
    let places: Vec<_> = (0..4)
        .map(|n| ProcessorPlace { numa_node: u32::from(n) / 2, ..place(n, 0, Some(0)) })
        .collect();
    let pairs = node_pairs(&places);

    let keys: Vec<_> = pairs.keys().copied().collect();
    assert_eq!(keys, vec![(0, 1)]);
    let (producer, consumer) = pairs[&(0, 1)];
    assert_eq!((producer.number, consumer.number), (0, 2));
    assert!(node_pairs(&places[..2]).is_empty(), "one node has no pair of nodes");
}
