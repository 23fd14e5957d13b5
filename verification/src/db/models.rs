//! The model registry's rows: a model as stored, with its roles and the
//! runtimes that can reach it, and what a caller supplies to register one.

use vstd::prelude::*;

use crate::compat::ModelDims;
use crate::error::CoreError;
use crate::order::{lemma_lex_total, lemma_lex_transitive, lex_lt, str_lt};
use crate::text::{str_eq, trim, trim_str, views};

verus! {

/// How one runtime reaches a model's canonical file.
#[derive(Debug, Clone, PartialEq, Eq)]
pub struct ModelLink {
    pub runtime_id: String,
    pub strategy: String,
    pub link_path: String,
}

/// A model as stored, with its roles and runtime links attached.
#[derive(Debug, Clone)]
pub struct Model {
    pub id: String,
    pub publisher: Option<String>,
    pub name: String,
    pub family: Option<String>,
    pub format: String,
    pub quant: Option<String>,
    pub arch: Option<String>,
    pub param_count: Option<i64>,
    pub file_path: String,
    pub sha256: Option<String>,
    pub size_bytes: i64,
    pub ctx_max: Option<i64>,
    pub vram_estimate_mb: Option<i64>,
    pub ram_estimate_mb: Option<i64>,
    pub source: String,
    pub source_revision: Option<String>,
    pub imported_at: String,
    pub last_used_at: Option<String>,
    pub use_count: i64,
    /// Transformer layers (`block_count`).
    pub n_layers: Option<i64>,
    /// Hidden size (`embedding_length`).
    pub n_embd: Option<i64>,
    /// Attention heads.
    pub n_heads: Option<i64>,
    /// KV heads.
    pub n_kv_heads: Option<i64>,
    pub roles: Vec<String>,
    /// Runtime ids that can use this model.
    pub runtimes: Vec<String>,
}

/// Fields supplied when registering a model; `id` and `imported_at` are
/// set on insert.
#[derive(Debug, Clone, Default)]
pub struct NewModel {
    pub publisher: Option<String>,
    pub name: String,
    pub family: Option<String>,
    pub format: String,
    pub quant: Option<String>,
    pub arch: Option<String>,
    pub param_count: Option<i64>,
    pub file_path: String,
    pub sha256: Option<String>,
    pub size_bytes: i64,
    pub ctx_max: Option<i64>,
    pub vram_estimate_mb: Option<i64>,
    pub ram_estimate_mb: Option<i64>,
    pub source: String,
    pub source_revision: Option<String>,
    pub n_layers: Option<i64>,
    pub n_embd: Option<i64>,
    pub n_heads: Option<i64>,
    pub n_kv_heads: Option<i64>,
    pub roles: Vec<String>,
}

/// A stored count as a `u32`, when it fits.
pub open spec fn fit_u32(v: Option<i64>) -> Option<u32> {
    match v {
        Some(n) => if 0 <= n <= u32::MAX {
            Some(n as u32)
        } else {
            None
        },
        None => None,
    }
}

/// A stored count as a `u64`, when it is not negative.
pub open spec fn fit_u64(v: Option<i64>) -> Option<u64> {
    match v {
        Some(n) => if 0 <= n {
            Some(n as u64)
        } else {
            None
        },
        None => None,
    }
}

fn to_u32(v: Option<i64>) -> (r: Option<u32>)
    ensures
        r == fit_u32(v),
{
    match v {
        Some(n) => if 0 <= n && n <= 0xffff_ffff {
            Some(n as u32)
        } else {
            None
        },
        None => None,
    }
}

fn to_u64(v: Option<i64>) -> (r: Option<u64>)
    ensures
        r == fit_u64(v),
{
    match v {
        Some(n) => if 0 <= n {
            Some(n as u64)
        } else {
            None
        },
        None => None,
    }
}

impl Model {
    /// Architecture facts for the VRAM fit estimate: every stored count
    /// that fits its field, a negative size as 0.
    pub fn vram_dims(&self) -> (r: ModelDims)
        ensures
            r.size_bytes == (if self.size_bytes >= 0 {
                self.size_bytes as u64
            } else {
                0u64
            }),
            r.ctx_max == fit_u32(self.ctx_max),
            r.param_count == fit_u64(self.param_count),
            r.n_layers == fit_u32(self.n_layers),
            r.n_embd == fit_u32(self.n_embd),
            r.n_heads == fit_u32(self.n_heads),
            r.n_kv_heads == fit_u32(self.n_kv_heads),
    {
        ModelDims {
            size_bytes: if self.size_bytes >= 0 {
                self.size_bytes as u64
            } else {
                0
            },
            ctx_max: to_u32(self.ctx_max),
            param_count: to_u64(self.param_count),
            n_layers: to_u32(self.n_layers),
            n_embd: to_u32(self.n_embd),
            n_heads: to_u32(self.n_heads),
            n_kv_heads: to_u32(self.n_kv_heads),
        }
    }
}

/// Every element comes before the next in `str`'s order: sorted, no
/// element twice.
pub open spec fn strictly_ascending(s: Seq<Seq<char>>) -> bool {
    forall|a: int, b: int| 0 <= a < b < s.len() ==> lex_lt(#[trigger] s[a], #[trigger] s[b])
}

/// `x` is the trimmed form of one of the first `n` roles, and not empty.
pub open spec fn is_clean_role(roles: Seq<Seq<char>>, n: int, x: Seq<char>) -> bool {
    x.len() > 0 && exists|i: int| 0 <= i < n && trim(#[trigger] roles[i]) == x
}

/// A model is registered only under a name that is not blank: `Ok` exactly
/// when `name` holds something besides whitespace, else the database error
/// "model name must not be empty".
pub fn check_model_name(name: &str) -> (r: Result<(), CoreError>)
    ensures
        r is Ok <==> trim(name@).len() > 0,
        r matches Err(e) ==> e.db_message() == Some("model name must not be empty"@),
{
    if trim_str(name).unicode_len() == 0 {
        Err(CoreError::Db(String::from_str("model name must not be empty")))
    } else {
        Ok(())
    }
}

/// The roles as stored: each trimmed, the empty ones dropped, sorted, each
/// once.
pub fn clean_roles(roles: &Vec<String>) -> (r: Vec<String>)
    ensures
        strictly_ascending(views(r@)),
        forall|x: Seq<char>|
            views(r@).contains(x) <==> is_clean_role(views(roles@), roles@.len() as int, x),
{
    let ghost rs = views(roles@);
    let mut out: Vec<String> = Vec::new();
    let mut i: usize = 0;
    while i < roles.len()
        invariant
            i <= roles@.len(),
            rs == views(roles@),
            strictly_ascending(views(out@)),
            forall|x: Seq<char>| views(out@).contains(x) <==> is_clean_role(rs, i as int, x),
        decreases roles@.len() - i,
    {
        let t = trim_str(roles[i].as_str());
        proof {
            assert(rs[i as int] == roles@[i as int]@);
        }
        if t.unicode_len() > 0 {
            let mut at: usize = 0;
            while at < out.len() && str_lt(out[at].as_str(), t)
                invariant
                    at <= out@.len(),
                    forall|k: int| 0 <= k < at ==> lex_lt(#[trigger] views(out@)[k], t@),
                decreases out@.len() - at,
            {
                at = at + 1;
            }
            let present = at < out.len() && str_eq(out[at].as_str(), t);
            let ghost vo = views(out@);
            proof {
                assert forall|k: int| at <= k < vo.len() implies (k == at && #[trigger] vo[k] == t@)
                    || lex_lt(t@, vo[k]) by {
                    lemma_lex_total(vo[at as int], t@);
                    if k > at && vo[at as int] != t@ {
                        lemma_lex_transitive(t@, vo[at as int], vo[k]);
                    }
                    if k > at && vo[at as int] == t@ {
                        assert(lex_lt(vo[at as int], vo[k]));
                    }
                }
            }
            if !present {
                let ghost prev = out@;
                out.insert(at, String::from_str(t));
                proof {
                    assert(views(out@) =~= vo.insert(at as int, t@));
                    let w = views(out@);
                    assert forall|a: int, b: int| 0 <= a < b < w.len() implies lex_lt(
                        #[trigger] w[a],
                        #[trigger] w[b],
                    ) by {
                        if b < at {
                            assert(w[a] == vo[a] && w[b] == vo[b]);
                        } else if b == at {
                            assert(w[a] == vo[a]);
                        } else if a < at {
                            assert(w[a] == vo[a] && w[b] == vo[b - 1]);
                            lemma_lex_transitive(vo[a], t@, vo[b - 1]);
                        } else if a == at {
                            assert(w[b] == vo[b - 1]);
                        } else {
                            assert(w[a] == vo[a - 1] && w[b] == vo[b - 1]);
                        }
                    }
                    assert forall|x: Seq<char>| w.contains(x) <==> is_clean_role(rs, i + 1, x) by {
                        if w.contains(x) {
                            let k = choose|k: int| 0 <= k < w.len() && w[k] == x;
                            if k == at {
                                assert(trim(rs[i as int]) == x);
                            } else {
                                if k < at {
                                    assert(vo[k] == x && vo.contains(x));
                                } else {
                                    assert(vo[k - 1] == x && vo.contains(x));
                                }
                                assert(is_clean_role(rs, i as int, x));
                                let j = choose|j: int| 0 <= j < i && trim(#[trigger] rs[j]) == x;
                                assert(0 <= j < i + 1);
                            }
                        }
                        if is_clean_role(rs, i + 1, x) {
                            let j = choose|j: int| 0 <= j < i + 1 && trim(#[trigger] rs[j]) == x;
                            if j < i {
                                assert(is_clean_role(rs, i as int, x));
                                let k = choose|k: int| 0 <= k < vo.len() && vo[k] == x;
                                if k < at {
                                    assert(w[k] == x);
                                } else {
                                    assert(w[k + 1] == x);
                                }
                            } else {
                                assert(w[at as int] == x);
                            }
                        }
                    }
                }
            } else {
                proof {
                    assert forall|x: Seq<char>| vo.contains(x) <==> is_clean_role(rs, i + 1, x) by {
                        if is_clean_role(rs, i + 1, x) {
                            let j = choose|j: int| 0 <= j < i + 1 && trim(#[trigger] rs[j]) == x;
                            if j < i {
                                assert(is_clean_role(rs, i as int, x));
                            } else {
                                assert(vo[at as int] == x);
                            }
                        }
                        if vo.contains(x) {
                            assert(is_clean_role(rs, i as int, x));
                            let j = choose|j: int| 0 <= j < i && trim(#[trigger] rs[j]) == x;
                            assert(0 <= j < i + 1);
                        }
                    }
                }
            }
        } else {
            proof {
                assert forall|x: Seq<char>| views(out@).contains(x) <==> is_clean_role(rs, i + 1, x) by {
                    if is_clean_role(rs, i + 1, x) {
                        let j = choose|j: int| 0 <= j < i + 1 && trim(#[trigger] rs[j]) == x;
                        assert(j < i);
                        assert(is_clean_role(rs, i as int, x));
                    }
                    if views(out@).contains(x) {
                        assert(is_clean_role(rs, i as int, x));
                        let j = choose|j: int| 0 <= j < i && trim(#[trigger] rs[j]) == x;
                        assert(0 <= j < i + 1);
                    }
                }
            }
        }
        i = i + 1;
    }
    out
}

} // verus!
