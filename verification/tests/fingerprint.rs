use windows_platform_probes::fingerprint::{
    banner_line, unknown_host_line, Fingerprint, ProcessorPlace, Provenance, Slice, Topology,
};

fn arm64_dev_host() -> Fingerprint {
    Fingerprint {
        arch: "aarch64",
        processors: 12,
        cores: 12,
        smt: false,
        partitioning_cache_level: Some(2),
        cache_domain_sizes: vec![6, 6],
        efficiency_classes: vec![(0, 6), (1, 6)],
        numa_node_sizes: vec![12],
        provenance: Provenance::Measured,
    }
}

fn x64_smt_host() -> Fingerprint {
    Fingerprint {
        arch: "x86_64",
        processors: 16,
        cores: 8,
        smt: true,
        partitioning_cache_level: Some(3),
        cache_domain_sizes: vec![16],
        efficiency_classes: vec![(0, 16)],
        numa_node_sizes: vec![16],
        provenance: Provenance::Measured,
    }
}

#[test]
fn the_development_host_renders_as_expected() {
    assert_eq!(arm64_dev_host().to_string(), "aarch64 12p/12c smt- L2[6,6] ec[0:6,1:6] numa[12]");
}

#[test]
fn an_smt_host_renders_as_expected() {
    assert_eq!(x64_smt_host().to_string(), "x86_64 16p/8c smt+ L3[16] ec[0:16] numa[16]");
}

#[test]
fn smt_is_stated_rather_than_left_to_be_inferred() {
    assert!(x64_smt_host().to_string().contains("smt+"));
    assert!(arm64_dev_host().to_string().contains("smt-"));
}

#[test]
fn the_two_hosts_do_not_render_identically() {
    assert_ne!(
        arm64_dev_host().to_string(),
        x64_smt_host().to_string(),
        "two machines that express different placements must be distinguishable"
    );
}

#[test]
fn a_machine_no_cache_partitions_says_so() {
    let flat = Fingerprint {
        arch: "x86_64",
        processors: 4,
        cores: 4,
        smt: false,
        partitioning_cache_level: None,
        cache_domain_sizes: vec![4],
        efficiency_classes: vec![(0, 4)],
        numa_node_sizes: vec![4],
        provenance: Provenance::Measured,
    };
    assert!(
        flat.to_string().contains("L-[4]"),
        "an undivided machine must render distinctly from a divided one, got {}",
        flat.to_string()
    );
    assert!(!flat.partitioned());
}

#[test]
fn heterogeneity_is_reported_from_the_classes() {
    assert!(arm64_dev_host().heterogeneous());
    assert!(!x64_smt_host().heterogeneous());
}

#[test]
fn partitioning_is_reported_from_the_domain_count() {
    assert!(arm64_dev_host().partitioned());
    assert!(!x64_smt_host().partitioned(), "one cache domain covering everything partitions nothing");
}

#[test]
fn rendering_is_stable_across_calls() {
    let host = arm64_dev_host();
    assert_eq!(host.to_string(), host.to_string());
}

#[test]
fn every_field_that_changes_the_answer_appears_in_the_render() {
    let base = arm64_dev_host();

    let mut fewer_cores = base.clone();
    fewer_cores.cores = 6;
    fewer_cores.processors = 6;

    let mut with_smt = base.clone();
    with_smt.smt = true;

    let mut different_cache = base.clone();
    different_cache.cache_domain_sizes = vec![4, 8];

    let mut different_classes = base.clone();
    different_classes.efficiency_classes = vec![(0, 12)];

    let mut different_numa = base.clone();
    different_numa.numa_node_sizes = vec![6, 6];

    let mut different_level = base.clone();
    different_level.partitioning_cache_level = Some(3);

    for (name, variant) in [
        ("core count", fewer_cores),
        ("smt", with_smt),
        ("cache domains", different_cache),
        ("efficiency classes", different_classes),
        ("numa nodes", different_numa),
        ("cache level", different_level),
    ] {
        assert_ne!(base.to_string(), variant.to_string(), "changing {name} must change the fingerprint");
    }
}

#[test]
fn a_measured_host_renders_without_any_marker() {
    let rendered = arm64_dev_host().to_string();

    assert!(!rendered.contains("!!"), "got {rendered}");
    assert!(rendered.starts_with("aarch64"), "got {rendered}");
}

#[test]
fn a_synthetic_host_is_marked_at_the_front() {
    let mut fabricated = x64_smt_host();
    fabricated.provenance = Provenance::Synthetic;

    let rendered = fabricated.to_string();

    assert!(
        rendered.starts_with("!!SYNTHETIC!! "),
        "the marker must lead, so a reader scanning a column cannot skip it: {rendered}"
    );
}

#[test]
fn a_restored_host_is_marked_and_says_which_kind_of_untrusted_it_is() {
    let mut loaded = x64_smt_host();
    loaded.provenance = Provenance::Restored;

    let rendered = loaded.to_string();

    assert!(rendered.starts_with("!!RESTORED!! "), "got {rendered}");
    assert!(!rendered.contains("SYNTHETIC"), "got {rendered}");
}

#[test]
fn an_untrusted_host_never_compares_equal_to_the_real_one_it_imitates() {
    let real = x64_smt_host();
    for untrusted in [Provenance::Synthetic, Provenance::Restored] {
        let mut imitation = x64_smt_host();
        imitation.provenance = untrusted;

        assert_eq!(
            imitation.processors, real.processors,
            "the fixtures must otherwise be identical for this test to mean anything"
        );
        assert_ne!(
            imitation.to_string(),
            real.to_string(),
            "{untrusted:?} rendered identically to a measured host"
        );
    }
}

#[test]
fn the_marker_is_the_only_difference_an_untrusted_host_renders() {
    let real = x64_smt_host();
    let mut fabricated = x64_smt_host();
    fabricated.provenance = Provenance::Synthetic;

    let rendered = fabricated.to_string();
    let stripped = rendered.strip_prefix("!!SYNTHETIC!! ").expect("the marker must be a removable prefix");

    assert_eq!(stripped, real.to_string());
}

#[test]
fn a_fingerprint_built_from_a_hand_made_topology_is_not_measured() {
    let fingerprint = Fingerprint::from_topology(&Topology::default(), "x86_64");

    assert!(!fingerprint.provenance.is_measured());
    assert!(fingerprint.to_string().starts_with("!!SYNTHETIC!! "), "got {}", fingerprint.to_string());
}

#[test]
fn the_banner_carries_whatever_the_fingerprint_says() {
    let fingerprint = arm64_dev_host();
    let banner = banner_line(&fingerprint);

    assert!(banner.starts_with("host:  "), "got {banner}");
    assert!(banner.contains(&fingerprint.to_string()), "the banner must embed the fingerprint verbatim: {banner}");
    assert!(!banner.contains("!!"), "a real machine's banner must carry no taint marker: {banner}");
}

#[test]
fn an_unreadable_host_is_named_as_such_in_the_banner() {
    assert_eq!(
        unknown_host_line("no processors"),
        "host:  UNKNOWN -- topology discovery failed: no processors"
    );
}

#[test]
fn a_pinned_pair_reports_what_its_two_ends_share() {
    let a = ProcessorPlace { number: 0, core: 0, efficiency_class: 1, cache_domain: Some(0), numa_node: 0 };
    let b = ProcessorPlace { number: 6, core: 6, efficiency_class: 1, cache_domain: Some(1), numa_node: 0 };
    let slice = Slice::pair(a, b);

    assert_eq!(slice.same_cache_domain(), Some(false));
    assert_eq!(slice.same_efficiency_class(), Some(true));
    let unpinned = Slice::Unpinned { threads: 4 };
    assert_eq!(unpinned.same_cache_domain(), None);
    assert_eq!(unpinned.same_efficiency_class(), None);
}
