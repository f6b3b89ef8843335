//! Reputation aggregates: social karma from the read-model, compute reputation from delivered work.
use crate::double::Double;
use vstd::prelude::*;

verus! {

/// The social-reputation aggregate of a user, summed across all their posts and comments.
#[derive(Debug, Clone, Copy, PartialEq, Eq, Structural)]
pub struct SocialKarma {
    /// Number of thread roots authored.
    pub posts: u64,
    /// Number of comments authored.
    pub comments: u64,
    /// Net score across the user's thread roots (ups - downs).
    pub post_score: i64,
    /// Net score across the user's comments.
    pub comment_score: i64,
    /// Total upvotes received (posts + comments).
    pub upvotes: u64,
    /// Total downvotes received.
    pub downvotes: u64,
    /// Follower count.
    pub followers: u64,
    /// The effective net karma that drives trust. With every vote weighing one and no decay it is the
    /// raw [`SocialKarma::karma`].
    pub effective_score: Double,
}

impl SocialKarma {
    /// The combined raw net score of posts and comments.
    pub open spec fn net(self) -> int {
        self.post_score + self.comment_score
    }

    /// The combined raw net score of posts and comments (for display).
    pub fn karma(&self) -> (net: i64)
        requires
            i64::MIN <= self.net() <= i64::MAX,
        ensures
            net == self.net(),
    {
        self.post_score + self.comment_score
    }
}

/// No reputation at all.
pub open spec fn no_karma() -> SocialKarma {
    SocialKarma {
        posts: 0,
        comments: 0,
        post_score: 0,
        comment_score: 0,
        upvotes: 0,
        downvotes: 0,
        followers: 0,
        effective_score: Double { bits: 0 },
    }
}

impl Default for SocialKarma {
    fn default() -> (none: Self)
        ensures
            none == no_karma(),
    {
        SocialKarma {
            posts: 0,
            comments: 0,
            post_score: 0,
            comment_score: 0,
            upvotes: 0,
            downvotes: 0,
            followers: 0,
            effective_score: Double { bits: 0 },
        }
    }
}

/// The on-chain compute-reputation aggregate of a user, rolled up across all the devices they own.
#[derive(Debug, Clone, Copy, PartialEq, Eq, Structural)]
pub struct ComputeTrust {
    /// Distinct devices summed into this aggregate.
    pub devices: u32,
    /// Jobs delivered as host across all devices.
    pub jobs_hosted: u64,
    /// Long-running heartbeats delivered as host.
    pub heartbeats_hosted: u64,
    /// Bids the user's hosts left to expire (no-shows).
    pub expiries: u64,
    /// Total credits earned hosting, in base units.
    pub earned_base: u128,
    /// Total advertised CPU cores.
    pub cpu_cores: u32,
    /// Total advertised memory (MiB).
    pub mem_mb: u64,
    /// Devices seen recently: over `devices`, an uptime proxy.
    pub seen: u32,
    /// Inferred average price per delivered unit of work, base units; 0 if no delivery yet.
    pub avg_price_base: u128,
}

/// No devices, no work.
pub open spec fn no_compute() -> ComputeTrust {
    ComputeTrust {
        devices: 0,
        jobs_hosted: 0,
        heartbeats_hosted: 0,
        expiries: 0,
        earned_base: 0,
        cpu_cores: 0,
        mem_mb: 0,
        seen: 0,
        avg_price_base: 0,
    }
}

impl Default for ComputeTrust {
    fn default() -> (none: Self)
        ensures
            none == no_compute(),
    {
        ComputeTrust {
            devices: 0,
            jobs_hosted: 0,
            heartbeats_hosted: 0,
            expiries: 0,
            earned_base: 0,
            cpu_cores: 0,
            mem_mb: 0,
            seen: 0,
            avg_price_base: 0,
        }
    }
}

/// One device's history and atlas facts.
#[derive(Debug, Clone, Copy, PartialEq, Eq, Structural)]
pub struct DeviceFacts {
    pub jobs_hosted: u64,
    pub heartbeats_hosted: u64,
    pub expiries: u64,
    pub earned_base: u128,
    pub cpu_cores: u32,
    pub mem_mb: u64,
    pub seen_recently: bool,
}

/// The smaller of two numbers.
pub open spec fn at_most(a: int, b: int) -> int {
    if a <= b {
        a
    } else {
        b
    }
}

impl ComputeTrust {
    /// Total proven, paid work delivered.
    pub open spec fn delivered(self) -> int {
        self.jobs_hosted + self.heartbeats_hosted
    }

    /// One more device's counts can be added without overflow.
    pub open spec fn has_room(self, d: DeviceFacts) -> bool {
        &&& self.devices < u32::MAX
        &&& self.jobs_hosted + d.jobs_hosted + self.heartbeats_hosted + d.heartbeats_hosted <= u64::MAX
        &&& self.expiries + d.expiries <= u64::MAX
        &&& self.cpu_cores + d.cpu_cores <= u32::MAX
        &&& self.mem_mb + d.mem_mb <= u64::MAX
        &&& self.seen <= self.devices
    }

    /// The aggregate with one more device: counts add up, earnings saturate, and the price is what was
    /// earned per unit of work delivered.
    pub open spec fn with_device(self, d: DeviceFacts) -> ComputeTrust {
        let earned = at_most(self.earned_base + d.earned_base, u128::MAX as int);
        let delivered = self.delivered() + d.jobs_hosted + d.heartbeats_hosted;
        ComputeTrust {
            devices: (self.devices + 1) as u32,
            jobs_hosted: (self.jobs_hosted + d.jobs_hosted) as u64,
            heartbeats_hosted: (self.heartbeats_hosted + d.heartbeats_hosted) as u64,
            expiries: (self.expiries + d.expiries) as u64,
            earned_base: earned as u128,
            cpu_cores: (self.cpu_cores + d.cpu_cores) as u32,
            mem_mb: (self.mem_mb + d.mem_mb) as u64,
            seen: (self.seen + (if d.seen_recently {
                1int
            } else {
                0
            })) as u32,
            avg_price_base: if delivered == 0 {
                0
            } else {
                (earned / delivered) as u128
            },
        }
    }

    /// Total proven, paid work delivered (jobs + heartbeats).
    pub fn delivered_work(&self) -> (work: u64)
        requires
            self.delivered() <= u64::MAX,
        ensures
            work == self.delivered(),
    {
        self.jobs_hosted + self.heartbeats_hosted
    }

    /// Reliability as a fraction.
    pub open spec fn reliability(self) -> (u64, u64) {
        if self.delivered() + self.expiries == 0 {
            (1u64, 1u64)
        } else {
            (self.delivered() as u64, (self.delivered() + self.expiries) as u64)
        }
    }

    /// Reliability as a fraction: delivered work over delivered work and no-shows; one over one for a
    /// host with no history.
    pub fn reliability_ratio(&self) -> (ratio: (u64, u64))
        requires
            self.delivered() + self.expiries <= u64::MAX,
        ensures
            ratio == self.reliability(),
    {
        let delivered: u64 = self.delivered_work();
        let total: u64 = delivered + self.expiries;
        if total == 0 {
            (1, 1)
        } else {
            (delivered, total)
        }
    }

    /// Fold one device's facts into the aggregate.
    pub fn add_device(
        &mut self,
        jobs_hosted: u64,
        heartbeats_hosted: u64,
        expiries: u64,
        earned_base: u128,
        cpu_cores: u32,
        mem_mb: u64,
        seen_recently: bool,
    )
        requires
            old(self).has_room(
                (DeviceFacts { jobs_hosted, heartbeats_hosted, expiries, earned_base, cpu_cores, mem_mb, seen_recently }),
            ),
        ensures
            *final(self) == old(self).with_device(
                (DeviceFacts { jobs_hosted, heartbeats_hosted, expiries, earned_base, cpu_cores, mem_mb, seen_recently }),
            ),
            final(self).seen <= final(self).devices,
            final(self).delivered() <= u64::MAX,
    {
        self.devices = self.devices + 1;
        self.jobs_hosted = self.jobs_hosted + jobs_hosted;
        self.heartbeats_hosted = self.heartbeats_hosted + heartbeats_hosted;
        self.expiries = self.expiries + expiries;
        self.earned_base = self.earned_base.saturating_add(earned_base);
        self.cpu_cores = self.cpu_cores + cpu_cores;
        self.mem_mb = self.mem_mb + mem_mb;
        if seen_recently {
            self.seen = self.seen + 1;
        }
        let delivered: u128 = self.delivered_work() as u128;
        self.avg_price_base = if delivered == 0 {
            0
        } else {
            self.earned_base / delivered
        };
    }
}

/// Tunable blend weights of the trust score.
#[derive(Debug, Clone, Copy, PartialEq, Eq, Structural)]
pub struct Weights {
    /// Weight on the social half.
    pub social: Double,
    /// Weight on the compute half.
    pub compute: Double,
    /// Weight on the web-of-trust half.
    pub graph: Double,
    /// Logistic scale for the effective social karma.
    pub social_scale: Double,
    /// Logistic scale for delivered compute work.
    pub compute_scale: Double,
    /// Half-life (seconds) for time-decay of social votes.
    pub half_life_secs: u64,
}

/// The usual blend: 0.3 social, 0.4 compute, 0.3 graph, logistic scales 12 and 25, half-life 90 days.
pub open spec fn usual_weights() -> Weights {
    Weights {
        social: Double { bits: 0x3FD3_3333_3333_3333 },
        compute: Double { bits: 0x3FD9_9999_9999_999A },
        graph: Double { bits: 0x3FD3_3333_3333_3333 },
        social_scale: Double { bits: 0x4028_0000_0000_0000 },
        compute_scale: Double { bits: 0x4039_0000_0000_0000 },
        half_life_secs: 7_776_000,
    }
}

impl Default for Weights {
    fn default() -> (weights: Self)
        ensures
            weights == usual_weights(),
    {
        Weights {
            social: Double { bits: 0x3FD3_3333_3333_3333 },
            compute: Double { bits: 0x3FD9_9999_9999_999A },
            graph: Double { bits: 0x3FD3_3333_3333_3333 },
            social_scale: Double { bits: 0x4028_0000_0000_0000 },
            compute_scale: Double { bits: 0x4039_0000_0000_0000 },
            half_life_secs: 90 * 24 * 3600,
        }
    }
}

/// The fused trust: a single `combined` score in 0 to 1, and every component behind it.
#[derive(Debug, Clone, Copy, PartialEq, Eq, Structural)]
pub struct TrustScore {
    /// Raw social karma.
    pub karma: i64,
    /// The effective social score that fed the social term.
    pub social_score: Double,
    /// Social term after the logistic squash.
    pub social_term: Double,
    /// Delivered compute work (jobs + heartbeats).
    pub delivered_work: u64,
    /// Reliability.
    pub reliability: Double,
    /// Compute term (work, gated by reliability).
    pub compute_term: Double,
    /// Web-of-trust rank (zero when no graph was computed).
    pub graph_rank: Double,
    /// Graph term.
    pub graph_term: Double,
    /// Final fused score.
    pub combined: Double,
}

/// Reliability is a share: of all that a host took on, the part that it delivered. It is whole for a host that
/// let nothing expire, one without a history among them, and nothing for one that let all expire.
pub proof fn law_reliability_is_the_share_delivered(t: ComputeTrust)
    requires
        t.jobs_hosted + t.heartbeats_hosted + t.expiries <= u64::MAX,
    ensures
        ({
            let (part, all) = t.reliability();
            &&& 0 < all
            &&& part <= all
            &&& t.jobs_hosted + t.heartbeats_hosted + t.expiries > 0 ==> part == t.jobs_hosted + t.heartbeats_hosted
                && all == part + t.expiries
            &&& t.expiries == 0 ==> part == all
            &&& t.jobs_hosted == 0 && t.heartbeats_hosted == 0 && t.expiries > 0 ==> part == 0
            &&& t.delivered() == t.jobs_hosted + t.heartbeats_hosted
        }),
{
}

} // verus!
