use trana::compute::{aggregate, aggregate_fits, delivered_by, device_facts, seed_candidates, AtlasEntry, History};
use trana::karma::{ComputeTrust, DeviceFacts, SocialKarma, Weights};

fn reliability(c: &ComputeTrust) -> f64 {
    let (delivered, total) = c.reliability_ratio();
    delivered as f64 / total as f64
}

#[test]
fn reliability_handles_newcomer_and_flaky() {
    let mut fresh = ComputeTrust::default();
    assert_eq!(reliability(&fresh), 1.0, "no history => benefit of the doubt");

    fresh.jobs_hosted = 9;
    fresh.expiries = 1;
    assert!((reliability(&fresh) - 0.9).abs() < 1e-9);
}

#[test]
fn add_device_rolls_up() {
    let mut c = ComputeTrust::default();
    c.add_device(10, 0, 0, 1_000, 8, 16_000, true);
    c.add_device(0, 0, 0, 0, 4, 8_000, false);
    assert_eq!(c.devices, 2);
    assert_eq!(c.cpu_cores, 12);
    assert_eq!(c.mem_mb, 24_000);
    assert_eq!(c.jobs_hosted, 10);
    // One of two devices seen recently => uptime 0.5.
    let uptime = c.seen as f64 / c.devices as f64;
    assert!((uptime - 0.5).abs() < 1e-9);
    // 1000 earned over 10 delivered => avg price 100.
    assert_eq!(c.avg_price_base, 100);
}

#[test]
fn earnings_saturate_and_prices_round_down() {
    let mut c = ComputeTrust::default();
    c.add_device(2, 1, 0, 10, 0, 0, false);
    assert_eq!(c.delivered_work(), 3);
    assert_eq!(c.avg_price_base, 3);
    c.add_device(0, 0, 0, u128::MAX, 0, 0, false);
    assert_eq!(c.earned_base, u128::MAX);
}

#[test]
fn karma_is_the_net_of_posts_and_comments() {
    let mut k = SocialKarma::default();
    k.post_score = 5;
    k.comment_score = -7;
    assert_eq!(k.karma(), -2);
}

#[test]
fn the_usual_weights() {
    let w = Weights::default();
    let f = |d: trana::double::Double| f64::from_bits(d.bits);
    assert_eq!((f(w.social), f(w.compute), f(w.graph)), (0.3, 0.4, 0.3));
    assert_eq!((f(w.social_scale), f(w.compute_scale)), (12.0, 25.0));
    assert_eq!(w.half_life_secs, 90 * 24 * 3600);
}

fn entry(node_id: &str, cpu_cores: u32, mem_mb: u32, last_seen_secs: u64) -> AtlasEntry {
    AtlasEntry { node_id: node_id.to_string(), cpu_cores, mem_mb, last_seen_secs }
}

#[test]
fn devices_are_known_by_history_and_atlas() {
    let atlas = vec![entry("a", 4, 100, 1000), entry("b", 8, 200, 500)];
    let history = History { jobs_hosted: 3, heartbeats_hosted: 4, expiries: 1, earned_base: -5 };
    let facts = device_facts(Some(history), &atlas, "a", 1180);
    assert_eq!((facts.jobs_hosted, facts.heartbeats_hosted, facts.expiries), (3, 4, 1));
    assert_eq!(facts.earned_base, 0, "negative earnings count as none");
    assert_eq!((facts.cpu_cores, facts.mem_mb, facts.seen_recently), (4, 100, true));
    // One second later it is no longer recent.
    assert!(!device_facts(Some(history), &atlas, "a", 1181).seen_recently);
    // A clock behind the atlas counts as recent.
    assert!(device_facts(None, &atlas, "b", 0).seen_recently);
    // Nothing known: zeros.
    let none = device_facts(None, &atlas, "c", 1000);
    assert_eq!(
        none,
        DeviceFacts {
            jobs_hosted: 0,
            heartbeats_hosted: 0,
            expiries: 0,
            earned_base: 0,
            cpu_cores: 0,
            mem_mb: 0,
            seen_recently: false,
        }
    );
}

#[test]
fn an_aggregate_counts_every_device() {
    let atlas = vec![entry("a", 4, 100, 10), entry("b", 8, 200, 10)];
    let history = History { jobs_hosted: 10, heartbeats_hosted: 0, expiries: 2, earned_base: 1000 };
    let facts = vec![device_facts(Some(history), &atlas, "a", 10), device_facts(None, &atlas, "b", 10)];
    assert!(aggregate_fits(&facts));
    let c = aggregate(&facts);
    assert_eq!((c.devices, c.cpu_cores, c.mem_mb, c.seen), (2, 12, 300, 2));
    assert_eq!((c.jobs_hosted, c.expiries, c.avg_price_base), (10, 2, 100));
}

#[test]
fn an_aggregate_that_overflows_is_seen_before() {
    let big = DeviceFacts {
        jobs_hosted: u64::MAX,
        heartbeats_hosted: 0,
        expiries: 0,
        earned_base: 0,
        cpu_cores: 0,
        mem_mb: 0,
        seen_recently: false,
    };
    assert!(aggregate_fits(&vec![big]));
    assert!(!aggregate_fits(&vec![big, DeviceFacts { jobs_hosted: 1, ..big }]));
}

#[test]
fn seeds_are_the_largest_nodes() {
    let atlas = vec![entry("small", 1, 1, 1), entry("large", 9, 1, 1), entry("mid", 5, 1, 1), entry("mid2", 5, 1, 1)];
    assert_eq!(seed_candidates(&atlas, 3), vec!["large", "mid", "mid2"]);
    assert_eq!(seed_candidates(&atlas, 0), Vec::<String>::new());
    assert_eq!(seed_candidates(&atlas, 9).len(), 4);
}

#[test]
fn delivered_work_is_jobs_and_heartbeats() {
    let h = History { jobs_hosted: 3, heartbeats_hosted: 4, expiries: 9, earned_base: 0 };
    assert_eq!(delivered_by(&h), Some(7));
    let idle = History { jobs_hosted: 0, heartbeats_hosted: 0, expiries: 9, earned_base: 5 };
    assert_eq!(delivered_by(&idle), None, "no delivered work, no standing");
}
