//! Per-platform client tuning: one transport, three budgets.
use vstd::arithmetic::power2;
use vstd::prelude::*;

verus! {

/// Where the client runs.
#[derive(Debug, Clone, Copy, PartialEq, Eq, Structural)]
pub enum Platform {
    /// A native app with a full in-process node.
    Native,
    /// A desktop browser running a WASM node (or proxying a local node).
    DesktopBrowser,
    /// A mobile browser, WASM-only over a relay: the tightest budget.
    MobileBrowser,
}

/// Cost budgets for one platform. Every field bounds per-client work so the network scales.
#[derive(Debug, Clone, Copy, PartialEq, Eq, Structural)]
pub struct Profile {
    /// Threads or comments to pull per feed page.
    pub feed_page_size: usize,
    /// How many pages ahead to prefetch.
    pub prefetch_pages: usize,
    /// Max bytes of media to auto-load before requiring an explicit tap.
    pub max_media_autoload_bytes: u64,
    /// Whether video and audio may auto-play.
    pub media_autoplay: bool,
    /// Load only thumbnails by default, fetching full media on demand.
    pub thumbnails_only: bool,
    /// Max concurrent fetches.
    pub concurrency: usize,
    /// How long to reuse a discovered instance list (ms).
    pub discovery_ttl_ms: u64,
    /// Reconnect backoff floor (ms).
    pub reconnect_base_ms: u64,
    /// Reconnect backoff ceiling (ms).
    pub reconnect_max_ms: u64,
}

/// The tuned budgets of each platform.
pub open spec fn budgets(platform: Platform) -> Profile {
    match platform {
        Platform::Native => Profile {
            feed_page_size: 100,
            prefetch_pages: 3,
            max_media_autoload_bytes: 67_108_864,
            media_autoplay: true,
            thumbnails_only: false,
            concurrency: 16,
            discovery_ttl_ms: 30_000,
            reconnect_base_ms: 250,
            reconnect_max_ms: 10_000,
        },
        Platform::DesktopBrowser => Profile {
            feed_page_size: 50,
            prefetch_pages: 2,
            max_media_autoload_bytes: 16_777_216,
            media_autoplay: true,
            thumbnails_only: false,
            concurrency: 8,
            discovery_ttl_ms: 15_000,
            reconnect_base_ms: 500,
            reconnect_max_ms: 15_000,
        },
        Platform::MobileBrowser => Profile {
            feed_page_size: 20,
            prefetch_pages: 1,
            max_media_autoload_bytes: 2_097_152,
            media_autoplay: false,
            thumbnails_only: true,
            concurrency: 4,
            discovery_ttl_ms: 10_000,
            reconnect_base_ms: 1_000,
            reconnect_max_ms: 30_000,
        },
    }
}

/// Capped exponential backoff: the base doubled once per attempt, sixteen times at most, and never
/// above the ceiling.
pub open spec fn backoff(platform: Platform, attempt: int) -> int {
    let p = budgets(platform);
    let doublings = if attempt < 16 {
        attempt
    } else {
        16
    };
    let raw = p.reconnect_base_ms * power2::pow2(doublings as nat);
    if raw <= p.reconnect_max_ms {
        raw
    } else {
        p.reconnect_max_ms as int
    }
}

impl Platform {
    /// The tuned budgets for this platform.
    pub fn profile(self) -> (profile: Profile)
        ensures
            profile == budgets(self),
    {
        match self {
            Platform::Native => Profile {
                feed_page_size: 100,
                prefetch_pages: 3,
                max_media_autoload_bytes: 64 * 1024 * 1024,
                media_autoplay: true,
                thumbnails_only: false,
                concurrency: 16,
                discovery_ttl_ms: 30_000,
                reconnect_base_ms: 250,
                reconnect_max_ms: 10_000,
            },
            Platform::DesktopBrowser => Profile {
                feed_page_size: 50,
                prefetch_pages: 2,
                max_media_autoload_bytes: 16 * 1024 * 1024,
                media_autoplay: true,
                thumbnails_only: false,
                concurrency: 8,
                discovery_ttl_ms: 15_000,
                reconnect_base_ms: 500,
                reconnect_max_ms: 15_000,
            },
            Platform::MobileBrowser => Profile {
                feed_page_size: 20,
                prefetch_pages: 1,
                max_media_autoload_bytes: 2 * 1024 * 1024,
                media_autoplay: false,
                thumbnails_only: true,
                concurrency: 4,
                discovery_ttl_ms: 10_000,
                reconnect_base_ms: 1_000,
                reconnect_max_ms: 30_000,
            },
        }
    }

    /// Reconnect backoff for `attempt` (0-based): capped exponential, deterministic.
    pub fn reconnect_backoff_ms(self, attempt: u32) -> (ms: u64)
        ensures
            ms == backoff(self, attempt as int),
    {
        let p = self.profile();
        let doublings: u32 = if attempt < 16 {
            attempt
        } else {
            16
        };
        let mut delay: u64 = p.reconnect_base_ms;
        let mut i: u32 = 0;
        proof {
            power2::lemma2_to64();
        }
        while i < doublings
            invariant
                i <= doublings <= 16,
                p == budgets(self),
                delay == p.reconnect_base_ms * power2::pow2(i as nat),
            decreases doublings - i,
        {
            proof {
                power2::lemma2_to64();
                power2::lemma_pow2_unfold((i + 1) as nat);
                if i < 16 {
                    power2::lemma_pow2_strictly_increases(i as nat, 16);
                }
                let base = p.reconnect_base_ms as int;
                let half = power2::pow2(i as nat) as int;
                assert(base * (2 * half) == 2 * (base * half)) by (nonlinear_arith);
                assert(base * half <= 1000 * 0x10000) by (nonlinear_arith)
                    requires
                        0 <= base <= 1000,
                        0 <= half <= 0x10000,
                ;
            }
            delay = delay * 2;
            i = i + 1;
        }
        if delay < p.reconnect_max_ms {
            delay
        } else {
            p.reconnect_max_ms
        }
    }
}

/// Backoff starts at the floor, never shrinks from one attempt to a later one, and never exceeds the
/// ceiling.
pub proof fn law_backoff_is_capped_and_monotone(platform: Platform, a: nat, b: nat)
    requires
        a <= b,
    ensures
        backoff(platform, 0) == budgets(platform).reconnect_base_ms,
        backoff(platform, a as int) <= backoff(platform, b as int),
        budgets(platform).reconnect_base_ms <= backoff(platform, a as int) <= budgets(platform).reconnect_max_ms,
{
    power2::lemma2_to64();
    let p = budgets(platform);
    let base = p.reconnect_base_ms as int;
    let da: nat = if a < 16 {
        a
    } else {
        16
    };
    let db: nat = if b < 16 {
        b
    } else {
        16
    };
    if da < db {
        power2::lemma_pow2_strictly_increases(da, db);
    }
    power2::lemma_pow2_pos(da);
    let pa = power2::pow2(da) as int;
    let pb = power2::pow2(db) as int;
    assert(base <= base * pa <= base * pb) by (nonlinear_arith)
        requires
            0 <= base,
            1 <= pa <= pb,
    ;
}

/// Every budget tightens from native to desktop to mobile.
pub proof fn law_budgets_tighten()
    ensures
        ({
            let n = budgets(Platform::Native);
            let d = budgets(Platform::DesktopBrowser);
            let m = budgets(Platform::MobileBrowser);
            &&& n.feed_page_size > d.feed_page_size > m.feed_page_size
            &&& n.prefetch_pages > d.prefetch_pages > m.prefetch_pages
            &&& n.max_media_autoload_bytes > d.max_media_autoload_bytes > m.max_media_autoload_bytes
            &&& n.concurrency > d.concurrency > m.concurrency
            &&& n.reconnect_base_ms < d.reconnect_base_ms < m.reconnect_base_ms
            &&& n.reconnect_max_ms < d.reconnect_max_ms < m.reconnect_max_ms
            &&& n.media_autoplay && !m.media_autoplay
            &&& m.thumbnails_only && !n.thumbnails_only
        }),
{
}

/// Each further attempt waits twice as long as the one before, up to the ceiling.
pub proof fn law_backoff_doubles(platform: Platform, attempt: nat)
    ensures
        ({
            let now = backoff(platform, attempt as int);
            let next = backoff(platform, (attempt + 1) as int);
            let ceiling = budgets(platform).reconnect_max_ms;
            next == (if 2 * now <= ceiling {
                2 * now
            } else {
                ceiling as int
            })
        }),
{
    power2::lemma2_to64();
    let base = budgets(platform).reconnect_base_ms as int;
    let a: nat = if attempt < 16 {
        attempt
    } else {
        16
    };
    power2::lemma_pow2_unfold(a + 1);
    let p = power2::pow2(a) as int;
    assert(base * (2 * p) == 2 * (base * p)) by (nonlinear_arith);
    if a == 16 {
        assert(base * 0x10000 >= 250 * 0x10000) by (nonlinear_arith)
            requires
                base >= 250,
        ;
    }
}

/// The budgets of the three platforms, in the units in which they are thought of: media in MiB and times in
/// milliseconds.
pub proof fn law_budgets_are_as_tuned(platform: Platform)
    ensures
        ({
            let p = budgets(platform);
            let mib = 1024 * 1024;
            match platform {
                Platform::Native => {
                    &&& p.feed_page_size == 100 && p.prefetch_pages == 3 && p.concurrency == 16
                    &&& p.max_media_autoload_bytes == 64 * mib
                    &&& p.media_autoplay && !p.thumbnails_only
                    &&& p.discovery_ttl_ms == 30 * 1000
                    &&& p.reconnect_base_ms == 250 && p.reconnect_max_ms == 10 * 1000
                },
                Platform::DesktopBrowser => {
                    &&& p.feed_page_size == 50 && p.prefetch_pages == 2 && p.concurrency == 8
                    &&& p.max_media_autoload_bytes == 16 * mib
                    &&& p.media_autoplay && !p.thumbnails_only
                    &&& p.discovery_ttl_ms == 15 * 1000
                    &&& p.reconnect_base_ms == 500 && p.reconnect_max_ms == 15 * 1000
                },
                Platform::MobileBrowser => {
                    &&& p.feed_page_size == 20 && p.prefetch_pages == 1 && p.concurrency == 4
                    &&& p.max_media_autoload_bytes == 2 * mib
                    &&& !p.media_autoplay && p.thumbnails_only
                    &&& p.discovery_ttl_ms == 10 * 1000
                    &&& p.reconnect_base_ms == 1000 && p.reconnect_max_ms == 30 * 1000
                },
            }
        }),
{
}

} // verus!
