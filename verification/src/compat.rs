//! Will this model fit in VRAM? A conservative estimate of what
//! `llama-server` needs to serve a GGUF at a context length — quantized
//! weights, an `fp16` KV cache sized from the architecture metadata (or a
//! coarse per-1K-token fallback) and a flat runtime overhead — plus a
//! plain-language green / yellow / red verdict that also weighs free system
//! RAM for the offload case.

use vstd::prelude::*;

use crate::arith::{sat, sat_mul};
use crate::text::{decimal, digit_char, fixed_kib, gb, gb_label, is_digit, padded, pow10};

verus! {

/// Context length the chat capability targets by default.
pub const DEFAULT_CHAT_CTX: u32 = 8192;

/// Above this percentage of the budget a fit counts as tight.
pub const FIT_TIGHT_PCT: u64 = 85;

/// RAM kept free for the OS while layers are offloaded there.
pub const OFFLOAD_RAM_RESERVE_MB: u64 = 4096;

/// Flat VRAM overhead for the CUDA context, cuBLAS workspace and graph.
pub const RUNTIME_OVERHEAD_MB: u64 = 350;

/// KV-cache guess per 1K context tokens when the dims are missing.
pub const KV_ROUGH_MB_PER_1K_CTX: u64 = 160;

pub const MIB: u64 = 1048576;

/// A plain-language answer to "will this model run on this machine?".
#[derive(Debug, Clone, PartialEq, Eq)]
pub enum FitVerdict {
    /// Comfortably within the VRAM budget.
    Green,
    /// Runs, with a caveat (tight, or partly offloaded to system RAM).
    Yellow { reason: String },
    /// Will not run acceptably here.
    Red { reason: String },
    /// No budget set, or not enough information to judge.
    Unknown,
}

/// The mathematical content of a [`FitVerdict`].
pub enum Fit {
    Green,
    Yellow(Seq<char>),
    Red(Seq<char>),
    Unknown,
}

impl FitVerdict {
    pub open spec fn fit(&self) -> Fit {
        match self {
            FitVerdict::Green => Fit::Green,
            FitVerdict::Yellow { reason } => Fit::Yellow(reason@),
            FitVerdict::Red { reason } => Fit::Red(reason@),
            FitVerdict::Unknown => Fit::Unknown,
        }
    }
}

/// The architecture facts the estimate needs; everything is optional.
#[derive(Debug, Clone, PartialEq, Eq)]
pub struct ModelDims {
    /// The quantized weights on disk, in bytes.
    pub size_bytes: u64,
    /// Trained context length.
    pub ctx_max: Option<u32>,
    /// Total parameters — not used by the estimate.
    pub param_count: Option<u64>,
    /// Transformer layers.
    pub n_layers: Option<u32>,
    /// Hidden size.
    pub n_embd: Option<u32>,
    /// Attention heads.
    pub n_heads: Option<u32>,
    /// KV heads; `n_heads` for plain multi-head attention.
    pub n_kv_heads: Option<u32>,
}

impl Default for ModelDims {
    fn default() -> (r: Self)
        ensures
            r == (ModelDims {
                size_bytes: 0,
                ctx_max: None,
                param_count: None,
                n_layers: None,
                n_embd: None,
                n_heads: None,
                n_kv_heads: None,
            }),
    {
        ModelDims {
            size_bytes: 0,
            ctx_max: None,
            param_count: None,
            n_layers: None,
            n_embd: None,
            n_heads: None,
            n_kv_heads: None,
        }
    }
}

/// Bytes of `fp16` KV cache per context token:
/// `2 tensors x 2 bytes x layers x head_dim x kv_heads`, `head_dim =
/// embedding / heads` — when the header carries all of it, non-zero.
pub open spec fn kv_rate(d: ModelDims) -> Option<nat> {
    match (d.n_layers, d.n_embd, d.n_heads) {
        (Some(layers), Some(embd), Some(heads)) => {
            let kv = match d.n_kv_heads {
                Some(k) => k,
                None => heads,
            };
            if layers == 0 || embd == 0 || heads == 0 || kv == 0 {
                None
            } else {
                Some((4 * layers * (embd / heads) * kv) as nat)
            }
        },
        _ => None,
    }
}

/// The per-token KV figure fits a `u64` (the computation overflows past it).
pub open spec fn kv_rate_fits(d: ModelDims) -> bool {
    match kv_rate(d) {
        Some(p) => p <= u64::MAX,
        None => true,
    }
}

/// KV cache in MB, and whether it is the coarse fallback.
pub open spec fn kv_cache(d: ModelDims, ctx: nat) -> (int, bool) {
    match kv_rate(d) {
        Some(p) => (sat((p * ctx) as int) / MIB as int, false),
        None => (((ctx + 1023) / 1024 * KV_ROUGH_MB_PER_1K_CTX) as int, true),
    }
}

/// The estimate for `d` served at `ctx` tokens (at least one).
pub open spec fn spec_estimate(d: ModelDims, ctx: u32) -> VramEstimate {
    let c = if ctx < 1 {
        1u32
    } else {
        ctx
    };
    let weights = d.size_bytes / MIB;
    let (kv, rough) = kv_cache(d, c as nat);
    VramEstimate {
        ctx: c,
        weights_mb: weights,
        kv_cache_mb: kv as u64,
        overhead_mb: RUNTIME_OVERHEAD_MB,
        total_mb: sat(sat(weights + kv) + RUNTIME_OVERHEAD_MB) as u64,
        kv_is_rough: rough,
    }
}

/// A VRAM requirement broken into parts the UI and logs can explain.
#[derive(Debug, Clone, PartialEq, Eq)]
pub struct VramEstimate {
    /// Context length this estimate was computed for.
    pub ctx: u32,
    pub weights_mb: u64,
    pub kv_cache_mb: u64,
    pub overhead_mb: u64,
    pub total_mb: u64,
    /// True when the KV figure is the coarse fallback.
    pub kv_is_rough: bool,
}

/// `"8K"` for a whole number of K tokens, else the plain number.
pub open spec fn ctx_text(ctx: u32) -> Seq<char> {
    if ctx >= 1024 && ctx % 1024 == 0 {
        crate::text::decimal((ctx / 1024) as nat) + "K"@
    } else {
        crate::text::decimal(ctx as nat)
    }
}

/// The one-line breakdown [`VramEstimate::describe`] gives.
pub open spec fn describe_text(e: VramEstimate) -> Seq<char> {
    "~"@ + gb_label(e.total_mb as nat) + " (weights "@ + gb_label(e.weights_mb as nat) + " + "@ + (
    if e.kv_is_rough {
        "KV cache ~"@
    } else {
        "KV cache "@
    }) + gb_label(e.kv_cache_mb as nat) + " @ "@ + ctx_text(e.ctx) + " ctx + "@ + gb_label(
        e.overhead_mb as nat,
    ) + " overhead)"@
}

pub open spec fn tight_reason(total: u64, budget: u64) -> Seq<char> {
    "needs ~"@ + gb_label(total as nat) + " of your ~"@ + gb_label(budget as nat)
        + " VRAM budget \u{2014} little head-room for a longer context or a second resident model"@
}

pub open spec fn offload_reason(total: u64, budget: u64) -> Seq<char> {
    "needs ~"@ + gb_label(total as nat) + ", over your ~"@ + gb_label(budget as nat)
        + " VRAM budget \u{2014} about "@ + gb_label((total - budget) as nat)
        + " would run in system RAM (much slower)"@
}

pub open spec fn red_reason(total: u64, budget: u64, free_ram: u64) -> Seq<char> {
    "needs ~"@ + gb_label(total as nat) + ", over your ~"@ + gb_label(budget as nat)
        + " VRAM budget, and only ~"@ + gb_label(free_ram as nat)
        + " RAM is free to offload the rest"@
}

/// The verdict on an all-in VRAM figure against the budget and free RAM.
pub open spec fn spec_verdict_from_total(total: u64, budget: u64, free_ram: u64) -> Fit {
    if budget == 0 || total == 0 {
        Fit::Unknown
    } else if total <= budget {
        if sat(total * 100) > sat(budget * FIT_TIGHT_PCT) {
            Fit::Yellow(tight_reason(total, budget))
        } else {
            Fit::Green
        }
    } else if free_ram >= sat((total - budget) + OFFLOAD_RAM_RESERVE_MB) {
        Fit::Yellow(offload_reason(total, budget))
    } else {
        Fit::Red(red_reason(total, budget, free_ram))
    }
}

/// The verdict on `d` at context `ctx`: unknown without a file size.
pub open spec fn spec_verdict(d: ModelDims, ctx: u32, budget: u64, free_ram: u64) -> Fit {
    if d.size_bytes == 0 {
        Fit::Unknown
    } else {
        spec_verdict_from_total(spec_estimate(d, ctx).total_mb, budget, free_ram)
    }
}

impl ModelDims {
    /// Bytes of `fp16` KV cache per context token, when the header gave
    /// enough detail.
    pub fn kv_bytes_per_token(&self) -> (r: Option<u64>)
        requires
            kv_rate_fits(*self),
        ensures
            r matches Some(p) ==> kv_rate(*self) == Some(p as nat),
            r is None ==> kv_rate(*self) is None,
    {
        let layers = match self.n_layers {
            Some(v) => v as u64,
            None => return None,
        };
        let embd = match self.n_embd {
            Some(v) => v as u64,
            None => return None,
        };
        let heads = match self.n_heads {
            Some(v) => v as u64,
            None => return None,
        };
        let kv_heads = match self.n_kv_heads {
            Some(v) => v as u64,
            None => heads,
        };
        if layers == 0 || embd == 0 || heads == 0 || kv_heads == 0 {
            return None;
        }
        let head_dim = embd / heads;
        let total: Ghost<int> = Ghost(4 * layers * head_dim * kv_heads);
        assert(total@ <= u64::MAX);
        let a = 4 * layers;
        assert(a * head_dim <= total@) by (nonlinear_arith)
            requires
                total@ == a * head_dim * kv_heads,
                kv_heads >= 1,
                head_dim >= 0,
                a >= 0,
        ;
        let b = a * head_dim;
        assert(b * kv_heads == total@) by (nonlinear_arith)
            requires
                total@ == 4 * layers * head_dim * kv_heads,
                a == 4 * layers,
                b == a * head_dim,
        ;
        Some(b * kv_heads)
    }
}

/// The context length to actually run a chat at: the model's trained
/// maximum, never more than [`DEFAULT_CHAT_CTX`].
pub fn effective_ctx(ctx_max: Option<u32>) -> (r: u32)
    ensures
        r == (match ctx_max {
            Some(c) if c > 0 => if c < DEFAULT_CHAT_CTX {
                c
            } else {
                DEFAULT_CHAT_CTX
            },
            _ => DEFAULT_CHAT_CTX,
        }),
{
    match ctx_max {
        Some(c) if c > 0 => if c < DEFAULT_CHAT_CTX {
            c
        } else {
            DEFAULT_CHAT_CTX
        },
        _ => DEFAULT_CHAT_CTX,
    }
}

/// Estimate the VRAM `llama-server` needs to serve `dims` at `ctx` tokens.
pub fn estimate(dims: &ModelDims, ctx: u32) -> (r: VramEstimate)
    requires
        kv_rate_fits(*dims),
    ensures
        r == spec_estimate(*dims, ctx),
{
    let ctx = if ctx < 1 {
        1
    } else {
        ctx
    };
    let weights_mb = dims.size_bytes / MIB;
    let (kv_cache_mb, kv_is_rough) = match dims.kv_bytes_per_token() {
        Some(per_token) => (sat_mul(per_token, ctx as u64) / MIB, false),
        None => {
            let blocks = (ctx as u64 + 1023) / 1024;
            assert(blocks <= 4194304);
            (blocks * KV_ROUGH_MB_PER_1K_CTX, true)
        },
    };
    let overhead_mb = RUNTIME_OVERHEAD_MB;
    let total_mb = weights_mb.saturating_add(kv_cache_mb).saturating_add(overhead_mb);
    VramEstimate { ctx, weights_mb, kv_cache_mb, overhead_mb, total_mb, kv_is_rough }
}

fn ctx_label(ctx: u32) -> (r: String)
    ensures
        r@ == ctx_text(ctx),
{
    let mut s = String::new();
    if ctx >= 1024 && ctx % 1024 == 0 {
        crate::text::push_decimal(&mut s, (ctx / 1024) as u64);
        s.append("K");
    } else {
        crate::text::push_decimal(&mut s, ctx as u64);
    }
    assert(s@ =~= ctx_text(ctx));
    s
}

impl VramEstimate {
    /// One-line plain-language breakdown, e.g.
    /// `~11.8 GB (weights 8.4 GB + KV cache 2.7 GB @ 8K ctx + 0.3 GB overhead)`.
    pub fn describe(&self) -> (r: String)
        ensures
            r@ == describe_text(*self),
    {
        let mut s = String::new();
        s.append("~");
        s.append(gb(self.total_mb).as_str());
        s.append(" (weights ");
        s.append(gb(self.weights_mb).as_str());
        s.append(" + ");
        if self.kv_is_rough {
            s.append("KV cache ~");
        } else {
            s.append("KV cache ");
        }
        s.append(gb(self.kv_cache_mb).as_str());
        s.append(" @ ");
        s.append(ctx_label(self.ctx).as_str());
        s.append(" ctx + ");
        s.append(gb(self.overhead_mb).as_str());
        s.append(" overhead)");
        assert(s@ =~= describe_text(*self));
        s
    }
}

/// Judge an already-computed total VRAM figure against the budget and the
/// free system RAM.
pub fn verdict_from_total_mb(total_mb: u64, vram_budget_mb: u64, free_ram_mb: u64) -> (r:
    FitVerdict)
    ensures
        r.fit() == spec_verdict_from_total(total_mb, vram_budget_mb, free_ram_mb),
{
    if vram_budget_mb == 0 || total_mb == 0 {
        return FitVerdict::Unknown;
    }
    if total_mb <= vram_budget_mb {
        if sat_mul(total_mb, 100) > sat_mul(vram_budget_mb, FIT_TIGHT_PCT) {
            let mut reason = String::new();
            reason.append("needs ~");
            reason.append(gb(total_mb).as_str());
            reason.append(" of your ~");
            reason.append(gb(vram_budget_mb).as_str());
            reason.append(
                " VRAM budget \u{2014} little head-room for a longer context or a second resident model",
            );
            assert(reason@ =~= tight_reason(total_mb, vram_budget_mb));
            return FitVerdict::Yellow { reason };
        }
        return FitVerdict::Green;
    }
    let overflow = total_mb - vram_budget_mb;
    if free_ram_mb >= overflow.saturating_add(OFFLOAD_RAM_RESERVE_MB) {
        let mut reason = String::new();
        reason.append("needs ~");
        reason.append(gb(total_mb).as_str());
        reason.append(", over your ~");
        reason.append(gb(vram_budget_mb).as_str());
        reason.append(" VRAM budget \u{2014} about ");
        reason.append(gb(overflow).as_str());
        reason.append(" would run in system RAM (much slower)");
        assert(reason@ =~= offload_reason(total_mb, vram_budget_mb));
        FitVerdict::Yellow { reason }
    } else {
        let mut reason = String::new();
        reason.append("needs ~");
        reason.append(gb(total_mb).as_str());
        reason.append(", over your ~");
        reason.append(gb(vram_budget_mb).as_str());
        reason.append(" VRAM budget, and only ~");
        reason.append(gb(free_ram_mb).as_str());
        reason.append(" RAM is free to offload the rest");
        assert(reason@ =~= red_reason(total_mb, vram_budget_mb, free_ram_mb));
        FitVerdict::Red { reason }
    }
}

/// Judge `dims` at context length `ctx` against the VRAM budget and the
/// free system RAM (for the offload fallback).
pub fn verdict(dims: &ModelDims, ctx: u32, vram_budget_mb: u64, free_ram_mb: u64) -> (r:
    FitVerdict)
    requires
        kv_rate_fits(*dims),
    ensures
        r.fit() == spec_verdict(*dims, ctx, vram_budget_mb, free_ram_mb),
{
    if dims.size_bytes == 0 {
        return FitVerdict::Unknown;
    }
    verdict_from_total_mb(estimate(dims, ctx).total_mb, vram_budget_mb, free_ram_mb)
}


/// The verdict on a model is the verdict on the total its estimate gives:
/// feeding that total straight in must agree.
pub proof fn law_verdict_agrees_with_its_total(d: ModelDims, ctx: u32, budget: u64, free_ram: u64)
    requires
        d.size_bytes > 0,
    ensures
        spec_verdict(d, ctx, budget, free_ram) == spec_verdict_from_total(
            spec_estimate(d, ctx).total_mb,
            budget,
            free_ram,
        ),
{
}

/// With the header's dims, doubling the context doubles the KV cache, up
/// to the one megabyte the rounding down can add.
pub proof fn law_kv_cache_scales_with_context(d: ModelDims, ctx: u32)
    requires
        kv_rate(d) is Some,
        1 <= ctx,
        2 * ctx <= u32::MAX,
        kv_rate(d)->0 * (2 * ctx) <= u64::MAX,
    ensures
        ({
            let x = kv_rate(d)->0 * ctx;
            spec_estimate(d, (2 * ctx) as u32).kv_cache_mb == 2 * spec_estimate(d, ctx).kv_cache_mb + (
            if x % MIB as int >= MIB / 2 {
                1int
            } else {
                0int
            })
        }),
        !spec_estimate(d, ctx).kv_is_rough,
{
    let p = kv_rate(d)->0;
    let x = p * ctx;
    assert(p * (2 * ctx) == 2 * x) by (nonlinear_arith)
        requires
            x == p * ctx,
    ;
    assert(x >= 0) by (nonlinear_arith)
        requires
            p >= 0,
            ctx >= 1,
            x == p * ctx,
    ;
    let m = MIB as int;
    assert((2 * x) / m == 2 * (x / m) + (if x % m >= m / 2 {
        1int
    } else {
        0int
    })) by (nonlinear_arith)
        requires
            m == 1048576,
            x >= 0,
    ;
}

/// Without the header's dims, the KV cache is the rough figure: 160 MB per
/// started 1K of context.
pub proof fn law_rough_kv_per_started_1k(d: ModelDims, ctx: u32)
    requires
        kv_rate(d) is None,
        ctx >= 1,
    ensures
        spec_estimate(d, ctx).kv_is_rough,
        spec_estimate(d, ctx).kv_cache_mb == (ctx + 1023) / 1024 * KV_ROUGH_MB_PER_1K_CTX,
{
    assert((ctx + 1023) / 1024 * KV_ROUGH_MB_PER_1K_CTX <= u64::MAX) by (nonlinear_arith)
        requires
            ctx <= u32::MAX,
            KV_ROUGH_MB_PER_1K_CTX == 160,
    ;
}

/// `t` occurs in `s`.
pub open spec fn has_text(s: Seq<char>, t: Seq<char>) -> bool {
    exists|i: int| 0 <= i && i + t.len() <= s.len() && #[trigger] s.subrange(i, i + t.len()) == t
}

/// No character of `s` is `c`.
pub open spec fn lacks(s: Seq<char>, c: char) -> bool {
    forall|k: int| 0 <= k < s.len() ==> s[k] != c
}

proof fn lemma_lacks_concat(a: Seq<char>, b: Seq<char>, c: char)
    requires
        lacks(a, c),
        lacks(b, c),
    ensures
        lacks(a + b, c),
{
    assert forall|k: int| 0 <= k < (a + b).len() implies (a + b)[k] != c by {
        if k >= a.len() {
            assert((a + b)[k] == b[k - a.len()]);
        }
    }
}

proof fn lemma_decimal_digits(n: nat)
    ensures
        decimal(n).len() > 0,
        forall|k: int| 0 <= k < decimal(n).len() ==> is_digit(#[trigger] decimal(n)[k]),
    decreases n,
{
    if n >= 10 {
        lemma_decimal_digits(n / 10);
        let (a, b) = (decimal(n / 10), seq![digit_char(n % 10)]);
        assert forall|k: int| 0 <= k < (a + b).len() implies is_digit(#[trigger] (a + b)[k]) by {
            if k >= a.len() {
                assert((a + b)[k] == b[k - a.len()]);
            }
        }
    }
}

proof fn lemma_padded_digits(n: nat, places: nat)
    ensures
        forall|k: int| 0 <= k < padded(n, places).len() ==> is_digit(#[trigger] padded(n, places)[k]),
    decreases places,
{
    if places > 0 {
        lemma_padded_digits(n / 10, (places - 1) as nat);
        let (a, b) = (padded(n / 10, (places - 1) as nat), seq![digit_char(n % 10)]);
        assert forall|k: int| 0 <= k < (a + b).len() implies is_digit(#[trigger] (a + b)[k]) by {
            if k >= a.len() {
                assert((a + b)[k] == b[k - a.len()]);
            }
        }
    }
}

proof fn lemma_digits_lack(s: Seq<char>, c: char)
    requires
        forall|k: int| 0 <= k < s.len() ==> is_digit(#[trigger] s[k]),
        !is_digit(c),
    ensures
        lacks(s, c),
{
}

/// A gigabyte label starts with a digit and holds neither `V` nor `~`.
proof fn lemma_gb_label_plain(mb: nat)
    ensures
        gb_label(mb).len() > 0,
        is_digit(gb_label(mb)[0]),
        lacks(gb_label(mb), 'V'),
{
    reveal_strlit(" GB");
    let v = crate::text::scaled_rounded(mb, 1);
    let (d, p) = (decimal(v / pow10(1)), padded(v % pow10(1), 1));
    lemma_decimal_digits(v / pow10(1));
    lemma_padded_digits(v % pow10(1), 1);
    lemma_digits_lack(d, 'V');
    lemma_digits_lack(p, 'V');
    lemma_lacks_concat(d, seq!['.'], 'V');
    lemma_lacks_concat(d + seq!['.'], p, 'V');
    lemma_lacks_concat(fixed_kib(mb, 1), " GB"@, 'V');
    assert(gb_label(mb)[0] == d[0]);
}

proof fn lemma_ctx_text_plain(ctx: u32)
    ensures
        lacks(ctx_text(ctx), 'V'),
{
    reveal_strlit("K");
    if ctx >= 1024 && ctx % 1024 == 0 {
        lemma_decimal_digits((ctx / 1024) as nat);
        lemma_digits_lack(decimal((ctx / 1024) as nat), 'V');
        lemma_lacks_concat(decimal((ctx / 1024) as nat), "K"@, 'V');
    } else {
        lemma_decimal_digits(ctx as nat);
        lemma_digits_lack(decimal(ctx as nat), 'V');
    }
}

/// The one-line breakdown reads plainly: it names the weights, the
/// overhead and the context, and marks the KV cache as rough (`~`) exactly
/// when its figure is the rough one.
pub proof fn law_describe_reads_plainly(e: VramEstimate)
    ensures
        has_text(describe_text(e), "KV cache ~"@) <==> e.kv_is_rough,
        has_text(describe_text(e), "weights"@),
        has_text(describe_text(e), "overhead"@),
        has_text(describe_text(e), "@ "@ + ctx_text(e.ctx) + " ctx"@),
{
    reveal_strlit("~");
    reveal_strlit(" (weights ");
    reveal_strlit(" + ");
    reveal_strlit("KV cache ~");
    reveal_strlit("KV cache ");
    reveal_strlit(" @ ");
    reveal_strlit(" ctx + ");
    reveal_strlit(" overhead)");
    reveal_strlit("weights");
    reveal_strlit("overhead");
    reveal_strlit("@ ");
    reveal_strlit(" ctx");
    let g1 = gb_label(e.total_mb as nat);
    let g2 = gb_label(e.weights_mb as nat);
    let g3 = gb_label(e.kv_cache_mb as nat);
    let g4 = gb_label(e.overhead_mb as nat);
    let c = ctx_text(e.ctx);
    let kv = if e.kv_is_rough {
        "KV cache ~"@
    } else {
        "KV cache "@
    };
    let a = "~"@ + g1 + " (weights "@ + g2 + " + "@;
    let b = g3 + " @ "@ + c + " ctx + "@ + g4 + " overhead)"@;
    let s = describe_text(e);
    assert(s =~= a + kv + b);
    lemma_gb_label_plain(e.total_mb as nat);
    lemma_gb_label_plain(e.weights_mb as nat);
    lemma_gb_label_plain(e.kv_cache_mb as nat);
    lemma_gb_label_plain(e.overhead_mb as nat);
    lemma_ctx_text_plain(e.ctx);
    // "weights"
    let iw: int = g1.len() + 3int;
    assert(s.subrange(iw, iw + 7) =~= "weights"@);
    // "overhead"
    let io: int = s.len() - 9;
    assert(s.subrange(io, io + 8) =~= "overhead"@);
    // "@ <ctx> ctx"
    let ic: int = a.len() + kv.len() + g3.len() + 1int;
    assert(s.subrange(ic, ic + ("@ "@ + c + " ctx"@).len()) =~= "@ "@ + c + " ctx"@);
    // "KV cache ~"
    let ik: int = a.len() as int;
    if e.kv_is_rough {
        assert(s.subrange(ik, ik + 10) =~= "KV cache ~"@);
    } else {
        lemma_lacks_concat("~"@, g1, 'V');
        lemma_lacks_concat("~"@ + g1, " (weights "@, 'V');
        lemma_lacks_concat("~"@ + g1 + " (weights "@, g2, 'V');
        lemma_lacks_concat("~"@ + g1 + " (weights "@ + g2, " + "@, 'V');
        if has_text(s, "KV cache ~"@) {
            let i = choose|i: int| 0 <= i && i + 10 <= s.len() && #[trigger] s.subrange(i, i + 10) == "KV cache ~"@;
            assert(s.subrange(i, i + 10)[1] == 'V');
            assert(s[i + 1] == 'V');
            assert(i + 1 < a.len() + kv.len()) by {
                if i + 1 >= a.len() + kv.len() {
                    let j = i + 1 - a.len() - kv.len();
                    assert(s[i + 1] == b[j]);
                    lemma_lacks_concat(g3, " @ "@, 'V');
                    lemma_lacks_concat(g3 + " @ "@, c, 'V');
                    lemma_lacks_concat(g3 + " @ "@ + c, " ctx + "@, 'V');
                    lemma_lacks_concat(g3 + " @ "@ + c + " ctx + "@, g4, 'V');
                    lemma_lacks_concat(g3 + " @ "@ + c + " ctx + "@ + g4, " overhead)"@, 'V');
                }
            }
            assert(i + 1 >= a.len()) by {
                if i + 1 < a.len() {
                    assert(s[i + 1] == a[i + 1]);
                }
            }
            assert(i == a.len());
            assert(s.subrange(i, i + 10)[9] == '~');
            assert(s[a.len() + 9int] == g3[0]);
        }
    }
}

} // verus!
