//! CDNA3 wavefront occupancy calculator.
//! MI300X: 304 CUs, 16 max waves per CU, 64 threads per wavefront.
use vstd::prelude::*;
use vstd::string::StringExecFns;

verus! {

/// Resource usage of one kernel.
#[derive(Debug, Clone, Copy)]
pub struct OccupancyParams {
    pub vgprs_per_thread: u32,
    pub sgprs_per_thread: u32,
    pub lds_bytes_per_workgroup: u64,
    pub workgroup_size: u64,
    pub waves_per_workgroup: u64,
}

/// What bounds the number of waves per CU, and what to do about it.
///
/// The achieved occupancy is `max_waves_per_cu / MAX_WAVES`.
#[derive(Debug, Clone)]
pub struct OccupancyResult {
    pub max_waves_per_cu: u32,
    pub limiting_factor: String,
    pub suggestions: Vec<String>,
}

pub const MAX_VGPRS: u32 = 1024;

pub const MAX_SGPRS: u32 = 800;

pub const MAX_LDS: u64 = 65536;

pub const MAX_WAVES: u32 = 16;

/// Waves per CU that the vector register file admits.
pub open spec fn vgpr_limit(p: OccupancyParams) -> int {
    MAX_VGPRS as int / (if p.vgprs_per_thread == 0 { 1 } else { p.vgprs_per_thread as int })
}

/// Waves per CU that the scalar register file admits.
pub open spec fn sgpr_limit(p: OccupancyParams) -> int {
    MAX_SGPRS as int / (if p.sgprs_per_thread == 0 { 1 } else { p.sgprs_per_thread as int })
}

/// Waves per CU that the local data share admits; no LDS use sets no limit
/// (`u32::MAX`).
pub open spec fn lds_limit(p: OccupancyParams) -> int {
    if p.lds_bytes_per_workgroup > 0 {
        MAX_LDS as int / p.lds_bytes_per_workgroup as int
    } else {
        u32::MAX as int
    }
}

pub open spec fn min_int(a: int, b: int) -> int {
    if a <= b { a } else { b }
}

/// The smallest of the three resource limits and the hardware cap.
pub open spec fn max_waves(p: OccupancyParams) -> int {
    min_int(min_int(min_int(vgpr_limit(p), sgpr_limit(p)), lds_limit(p)), MAX_WAVES as int)
}

/// The three resources that bound the waves per CU.
pub enum Resource {
    Vgprs,
    Sgprs,
    Lds,
}

/// The resource with the smallest limit; ties go to VGPRs, then SGPRs.
pub open spec fn limiting_resource(p: OccupancyParams) -> Resource {
    if vgpr_limit(p) <= sgpr_limit(p) && vgpr_limit(p) <= lds_limit(p) {
        Resource::Vgprs
    } else if sgpr_limit(p) <= lds_limit(p) {
        Resource::Sgprs
    } else {
        Resource::Lds
    }
}

/// The name under which a resource is reported.
pub open spec fn resource_name(r: Resource) -> Seq<char> {
    match r {
        Resource::Vgprs => "VGPRs"@,
        Resource::Sgprs => "SGPRs"@,
        Resource::Lds => "LDS"@,
    }
}

/// The reported name of the limiting resource.
pub open spec fn limiting_factor(p: OccupancyParams) -> Seq<char> {
    resource_name(limiting_resource(p))
}

/// A VGPR-limited kernel that uses more than 64 VGPRs per thread is told to
/// reduce them; no other advice is given.
pub open spec fn suggests_vgpr_reduction(p: OccupancyParams) -> bool {
    &&& vgpr_limit(p) <= sgpr_limit(p)
    &&& vgpr_limit(p) <= lds_limit(p)
    &&& p.vgprs_per_thread > 64
}

/// Computes the waves per CU that a kernel's resource usage admits, which
/// resource limits it, and the advice for it.
pub fn calculate_occupancy(params: &OccupancyParams) -> (r: OccupancyResult)
    ensures
        r.max_waves_per_cu == max_waves(*params),
        r.max_waves_per_cu <= MAX_WAVES,
        r.limiting_factor@ == limiting_factor(*params),
        suggests_vgpr_reduction(*params) ==> r.suggestions@.len() == 1
            && r.suggestions@[0]@ == "Reduce VGPR usage"@,
        !suggests_vgpr_reduction(*params) ==> r.suggestions@.len() == 0,
        r.suggestions@.len() > 0 ==> r.limiting_factor@ == "VGPRs"@ && params.vgprs_per_thread > 64,
{
    proof {
        lemma_advice_only_for_vgpr_limited(*params);
    }
    let vgprs: u32 = if params.vgprs_per_thread == 0 { 1 } else { params.vgprs_per_thread };
    let sgprs: u32 = if params.sgprs_per_thread == 0 { 1 } else { params.sgprs_per_thread };
    let vgpr_limited: u32 = MAX_VGPRS / vgprs;
    let sgpr_limited: u32 = MAX_SGPRS / sgprs;
    let lds_limited: u32 = if params.lds_bytes_per_workgroup > 0 {
        let q: u64 = MAX_LDS / params.lds_bytes_per_workgroup;
        assert(q <= MAX_LDS) by {
            vstd::arithmetic::div_mod::lemma_div_is_ordered_by_denominator(
                MAX_LDS as int,
                1,
                params.lds_bytes_per_workgroup as int,
            );
        }
        q as u32
    } else {
        u32::MAX
    };
    let mut max_waves: u32 = vgpr_limited;
    if sgpr_limited < max_waves {
        max_waves = sgpr_limited;
    }
    if lds_limited < max_waves {
        max_waves = lds_limited;
    }
    if MAX_WAVES < max_waves {
        max_waves = MAX_WAVES;
    }
    let mut suggestions: Vec<String> = Vec::new();
    let limiting = if vgpr_limited <= sgpr_limited && vgpr_limited <= lds_limited {
        if params.vgprs_per_thread > 64 {
            suggestions.push(String::from_str("Reduce VGPR usage"));
        }
        String::from_str("VGPRs")
    } else if sgpr_limited <= lds_limited {
        String::from_str("SGPRs")
    } else {
        String::from_str("LDS")
    };
    OccupancyResult { max_waves_per_cu: max_waves, limiting_factor: limiting, suggestions }
}


/// The waves per CU that a resource admits.
pub open spec fn limit_of(p: OccupancyParams, r: Resource) -> int {
    match r {
        Resource::Vgprs => vgpr_limit(p),
        Resource::Sgprs => sgpr_limit(p),
        Resource::Lds => lds_limit(p),
    }
}

/// Using more of any resource never raises the waves per CU: if a kernel
/// needs at least as many VGPRs, SGPRs and LDS bytes as another, its
/// occupancy is at most the other's.
pub proof fn lemma_occupancy_monotone(p1: OccupancyParams, p2: OccupancyParams)
    requires
        p1.vgprs_per_thread <= p2.vgprs_per_thread,
        p1.sgprs_per_thread <= p2.sgprs_per_thread,
        p1.lds_bytes_per_workgroup <= p2.lds_bytes_per_workgroup,
    ensures
        max_waves(p2) <= max_waves(p1),
        vgpr_limit(p2) <= vgpr_limit(p1),
        sgpr_limit(p2) <= sgpr_limit(p1),
        lds_limit(p2) <= lds_limit(p1),
{
    let v1: int = if p1.vgprs_per_thread == 0 { 1 } else { p1.vgprs_per_thread as int };
    let v2: int = if p2.vgprs_per_thread == 0 { 1 } else { p2.vgprs_per_thread as int };
    vstd::arithmetic::div_mod::lemma_div_is_ordered_by_denominator(MAX_VGPRS as int, v1, v2);
    let s1: int = if p1.sgprs_per_thread == 0 { 1 } else { p1.sgprs_per_thread as int };
    let s2: int = if p2.sgprs_per_thread == 0 { 1 } else { p2.sgprs_per_thread as int };
    vstd::arithmetic::div_mod::lemma_div_is_ordered_by_denominator(MAX_SGPRS as int, s1, s2);
    if p1.lds_bytes_per_workgroup > 0 {
        vstd::arithmetic::div_mod::lemma_div_is_ordered_by_denominator(
            MAX_LDS as int,
            p1.lds_bytes_per_workgroup as int,
            p2.lds_bytes_per_workgroup as int,
        );
    } else if p2.lds_bytes_per_workgroup > 0 {
        vstd::arithmetic::div_mod::lemma_div_is_ordered_by_denominator(
            MAX_LDS as int,
            1,
            p2.lds_bytes_per_workgroup as int,
        );
    }
}

/// The resource that is reported as limiting is the one that sets the waves
/// per CU: its limit is the smallest of the three, and the waves per CU are
/// that limit capped at `MAX_WAVES`.
pub proof fn lemma_limiting_factor_sets_occupancy(p: OccupancyParams)
    ensures
        limit_of(p, limiting_resource(p)) <= vgpr_limit(p),
        limit_of(p, limiting_resource(p)) <= sgpr_limit(p),
        limit_of(p, limiting_resource(p)) <= lds_limit(p),
        max_waves(p) == min_int(limit_of(p, limiting_resource(p)), MAX_WAVES as int),
{
}

/// The achieved occupancy `max_waves / MAX_WAVES` lies in [0, 1], and the
/// waves per CU are full only when every resource admits at least
/// `MAX_WAVES` waves.
pub proof fn lemma_occupancy_bounds(p: OccupancyParams)
    ensures
        0 <= max_waves(p) <= MAX_WAVES,
        max_waves(p) == MAX_WAVES <==> (vgpr_limit(p) >= MAX_WAVES && sgpr_limit(p)
            >= MAX_WAVES && lds_limit(p) >= MAX_WAVES),
{
    let v: int = if p.vgprs_per_thread == 0 { 1 } else { p.vgprs_per_thread as int };
    let s: int = if p.sgprs_per_thread == 0 { 1 } else { p.sgprs_per_thread as int };
    vstd::arithmetic::div_mod::lemma_div_pos_is_pos(MAX_VGPRS as int, v);
    vstd::arithmetic::div_mod::lemma_div_pos_is_pos(MAX_SGPRS as int, s);
    if p.lds_bytes_per_workgroup > 0 {
        vstd::arithmetic::div_mod::lemma_div_pos_is_pos(MAX_LDS as int, p.lds_bytes_per_workgroup as int);
    }
}


/// Floor division: `q = a / b` is the largest `q` with `q * b <= a`.
proof fn lemma_floor_div(a: int, b: int)
    requires
        a >= 0,
        b > 0,
    ensures
        (a / b) * b <= a,
        (a / b + 1) * b > a,
        a / b >= 0,
{
    vstd::arithmetic::div_mod::lemma_fundamental_div_mod(a, b);
    vstd::arithmetic::div_mod::lemma_div_pos_is_pos(a, b);
    let q = a / b;
    let r = a % b;
    assert(0 <= r < b);
    assert(q * b <= a && (q + 1) * b > a) by (nonlinear_arith)
        requires
            a == b * q + r,
            0 <= r < b,
    ;
}

proof fn lemma_fits(m: int, q: int, b: int, a: int)
    requires
        0 <= m <= q,
        b > 0,
        q * b <= a,
    ensures
        m * b <= a,
{
    assert(m * b <= q * b) by (nonlinear_arith)
        requires
            0 <= m <= q,
            b > 0,
    ;
}

/// The waves per CU are what the register files and the LDS can hold at
/// once, up to the hardware's 16: that many waves fit in each resource, and
/// one wave more would overflow one of them, unless the cap is reached.
/// LDS is reported as limiting only for kernels that use LDS.
pub proof fn lemma_waves_fill_the_cu(p: OccupancyParams)
    ensures
        ({
            let m = max_waves(p);
            let v: int = if p.vgprs_per_thread == 0 { 1 } else { p.vgprs_per_thread as int };
            let s: int = if p.sgprs_per_thread == 0 { 1 } else { p.sgprs_per_thread as int };
            let l: int = p.lds_bytes_per_workgroup as int;
            &&& 0 <= m <= 16
            &&& m * v <= 1024
            &&& m * s <= 800
            &&& l > 0 ==> m * l <= 65536
            &&& m == 16 || (m + 1) * v > 1024 || (m + 1) * s > 800 || (l > 0 && (m + 1) * l
                > 65536)
        }),
        limiting_factor(p) == "VGPRs"@ || limiting_factor(p) == "SGPRs"@ || limiting_factor(p)
            == "LDS"@,
        limiting_factor(p) == "LDS"@ ==> p.lds_bytes_per_workgroup > 0,
{
    let m = max_waves(p);
    let v: int = if p.vgprs_per_thread == 0 { 1 } else { p.vgprs_per_thread as int };
    let s: int = if p.sgprs_per_thread == 0 { 1 } else { p.sgprs_per_thread as int };
    let l: int = p.lds_bytes_per_workgroup as int;
    lemma_floor_div(1024, v);
    lemma_floor_div(800, s);
    lemma_occupancy_bounds(p);
    lemma_fits(m, vgpr_limit(p), v, 1024);
    lemma_fits(m, sgpr_limit(p), s, 800);
    if l > 0 {
        lemma_floor_div(65536, l);
        lemma_fits(m, lds_limit(p), l, 65536);
    }
    vstd::arithmetic::div_mod::lemma_div_is_ordered_by_denominator(1024, 1, v);
    assert(vgpr_limit(p) <= 1024);
    reveal_strlit("VGPRs");
    reveal_strlit("SGPRs");
    reveal_strlit("LDS");
    assert("LDS"@.len() != "VGPRs"@.len());
    assert("LDS"@.len() != "SGPRs"@.len());
}

/// Advice to reduce VGPRs goes only to kernels whose VGPRs are the limiting
/// resource and that use more than 64 of them, and always to those.
pub proof fn lemma_advice_only_for_vgpr_limited(p: OccupancyParams)
    ensures
        suggests_vgpr_reduction(p) <==> (limiting_factor(p) == "VGPRs"@ && p.vgprs_per_thread > 64),
{
    reveal_strlit("VGPRs");
    reveal_strlit("SGPRs");
    reveal_strlit("LDS");
    assert("SGPRs"@[0] != "VGPRs"@[0]);
    assert("LDS"@.len() != "VGPRs"@.len());
}

} // verus!
