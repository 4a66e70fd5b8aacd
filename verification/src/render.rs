//! Text helpers of the visualisation report: polygon complexity summaries
//! and the page style sheets.
use vstd::prelude::*;
use vstd::string::*;

verus! {

/// Polygon complexity metrics for diagnostics.
#[derive(Debug, Clone, Copy)]
pub struct ComplexityMetrics {
    pub exterior_vertices: usize,
    pub hole_count: usize,
    pub total_hole_vertices: usize,
    pub total_segments: usize,
    /// `None` when not computed.
    pub reflex_vertices: Option<usize>,
}

/// Vertices of a closed ring of `len` points (the closing point repeats
/// the first one).
pub open spec fn ring_vertices(len: usize) -> int {
    if len == 0 {
        0
    } else {
        len - 1
    }
}

/// Total vertices of the first `k` holes.
pub open spec fn hole_vertices(hole_lens: Seq<usize>, k: int) -> int
    decreases k,
{
    if k <= 0 {
        0
    } else {
        hole_vertices(hole_lens, k - 1) + ring_vertices(hole_lens[k - 1])
    }
}

proof fn lemma_hole_vertices_mono(hole_lens: Seq<usize>, k: int, n: int)
    requires
        0 <= k <= n <= hole_lens.len(),
    ensures
        0 <= hole_vertices(hole_lens, k) <= hole_vertices(hole_lens, n),
    decreases n - k,
{
    if k < n {
        lemma_hole_vertices_mono(hole_lens, k, n - 1);
    } else {
        lemma_hole_vertices_nonneg(hole_lens, k);
    }
}

proof fn lemma_hole_vertices_nonneg(hole_lens: Seq<usize>, k: int)
    requires
        0 <= k <= hole_lens.len(),
    ensures
        0 <= hole_vertices(hole_lens, k),
    decreases k,
{
    if k > 0 {
        lemma_hole_vertices_nonneg(hole_lens, k - 1);
    }
}

/// Complexity metrics of a polygon from the point counts of its exterior
/// ring and of its holes (closed rings).
pub fn complexity_from_ring_lengths(exterior_len: usize, hole_lens: &Vec<usize>) -> (m:
    ComplexityMetrics)
    requires
        ring_vertices(exterior_len) + hole_vertices(hole_lens@, hole_lens.len() as int)
            <= usize::MAX,
    ensures
        m.exterior_vertices == ring_vertices(exterior_len),
        m.hole_count == hole_lens.len(),
        m.total_hole_vertices == hole_vertices(hole_lens@, hole_lens.len() as int),
        m.total_segments == m.exterior_vertices + m.total_hole_vertices,
        m.reflex_vertices is None,
{
    let exterior_vertices = exterior_len.saturating_sub(1);
    let mut total_hole_vertices: usize = 0;
    let mut k: usize = 0;
    while k < hole_lens.len()
        invariant
            0 <= k <= hole_lens.len(),
            ring_vertices(exterior_len) + hole_vertices(hole_lens@, hole_lens.len() as int)
                <= usize::MAX,
            total_hole_vertices == hole_vertices(hole_lens@, k as int),
        decreases hole_lens.len() - k,
    {
        proof {
            lemma_hole_vertices_mono(hole_lens@, k + 1, hole_lens.len() as int);
        }
        total_hole_vertices = total_hole_vertices + hole_lens[k].saturating_sub(1);
        k = k + 1;
    }
    proof {
        lemma_hole_vertices_mono(hole_lens@, hole_lens.len() as int, hole_lens.len() as int);
    }
    ComplexityMetrics {
        exterior_vertices,
        hole_count: hole_lens.len(),
        total_hole_vertices,
        total_segments: exterior_vertices + total_hole_vertices,
        reflex_vertices: None,
    }
}

/// Decimal digit character.
pub open spec fn digit_char(d: int) -> char {
    if d == 0 {
        '0'
    } else if d == 1 {
        '1'
    } else if d == 2 {
        '2'
    } else if d == 3 {
        '3'
    } else if d == 4 {
        '4'
    } else if d == 5 {
        '5'
    } else if d == 6 {
        '6'
    } else if d == 7 {
        '7'
    } else if d == 8 {
        '8'
    } else {
        '9'
    }
}

/// Decimal representation of `n` (no leading zeros; "0" for zero).
pub open spec fn decimal(n: nat) -> Seq<char>
    decreases n,
{
    if n < 10 {
        seq![digit_char(n as int)]
    } else {
        decimal(n / 10).push(digit_char((n % 10) as int))
    }
}

fn digit_str(d: usize) -> (s: &'static str)
    requires
        d < 10,
    ensures
        s@ == seq![digit_char(d as int)],
{
    match d {
        0 => {
            proof {
                reveal_strlit("0");
            }
            "0"
        }
        1 => {
            proof {
                reveal_strlit("1");
            }
            "1"
        }
        2 => {
            proof {
                reveal_strlit("2");
            }
            "2"
        }
        3 => {
            proof {
                reveal_strlit("3");
            }
            "3"
        }
        4 => {
            proof {
                reveal_strlit("4");
            }
            "4"
        }
        5 => {
            proof {
                reveal_strlit("5");
            }
            "5"
        }
        6 => {
            proof {
                reveal_strlit("6");
            }
            "6"
        }
        7 => {
            proof {
                reveal_strlit("7");
            }
            "7"
        }
        8 => {
            proof {
                reveal_strlit("8");
            }
            "8"
        }
        _ => {
            proof {
                reveal_strlit("9");
            }
            "9"
        }
    }
}

/// Decimal representation of `n`.
pub fn format_decimal(n: usize) -> (s: String)
    ensures
        s@ == decimal(n as nat),
    decreases n,
{
    if n < 10 {
        String::from_str(digit_str(n))
    } else {
        let mut s = format_decimal(n / 10);
        s.append(digit_str(n % 10));
        s
    }
}

/// Separator between the parts of a complexity summary.
pub open spec fn separator() -> Seq<char> {
    " · "@
}

/// Compact text of the complexity metrics: vertex and segment counts, then
/// the holes and reflex vertices when there are any, joined by `" · "`.
pub open spec fn complexity_text(m: ComplexityMetrics) -> Seq<char> {
    let base = decimal(m.exterior_vertices as nat) + " verts"@ + separator() + decimal(
        m.total_segments as nat,
    ) + " segs"@;
    let with_holes = if m.hole_count > 0 {
        base + separator() + decimal(m.hole_count as nat) + " holes"@
    } else {
        base
    };
    match m.reflex_vertices {
        Some(r) => if r > 0 {
            with_holes + separator() + decimal(r as nat) + " reflex"@
        } else {
            with_holes
        },
        None => with_holes,
    }
}

fn append_count(s: &mut String, n: usize, unit: &str)
    ensures
        final(s)@ == old(s)@ + decimal(n as nat) + unit@,
{
    let digits = format_decimal(n);
    s.append(digits.as_str());
    s.append(unit);
}

/// Format complexity metrics as a compact string for display.
pub fn format_complexity(metrics: &ComplexityMetrics) -> (s: String)
    ensures
        s@ == complexity_text(*metrics),
{
    let sep = " · ";
    let mut s = String::new();
    append_count(&mut s, metrics.exterior_vertices, " verts");
    s.append(sep);
    append_count(&mut s, metrics.total_segments, " segs");
    if metrics.hole_count > 0 {
        s.append(sep);
        append_count(&mut s, metrics.hole_count, " holes");
    }
    if let Some(reflex) = metrics.reflex_vertices {
        if reflex > 0 {
            s.append(sep);
            append_count(&mut s, reflex, " reflex");
        }
    }
    proof {
        assert(s@ =~= complexity_text(*metrics));
    }
    s
}

/// CSS styles for both modes (LIR and MIC).
pub fn styles() -> (s: &'static str)
    ensures
        s@ == r#"body{font-family:-apple-system,BlinkMacSystemFont,'Segoe UI',Arial,sans-serif;margin:20px;background:#1a1a2e;color:#eee}
h1{color:#eee;margin-bottom:10px}
.grid{display:grid;grid-template-columns:repeat(auto-fill,minmax(220px,1fr));gap:15px}
.card{background:#16213e;border-radius:8px;padding:10px;box-shadow:0 2px 8px rgba(0,0,0,.3)}
svg{width:100%;height:200px;background:#0f0f23;border-radius:4px}
.polygon{fill:#e94560;stroke:#ff6b6b;stroke-width:1}
.rect{fill:rgba(66,133,244,.4);stroke:#4285f4;stroke-width:2}
.obstacle{fill:#ff4444;stroke:none}
.best-effort{fill:rgba(255,193,7,.3);stroke:#ffc107}
.hole{fill:none;stroke:#666;stroke-width:1;stroke-dasharray:3}
.info{margin-top:8px;font-size:11px;color:#aaa;line-height:1.4}
.stats{background:#16213e;padding:20px;border-radius:8px;margin-bottom:20px;box-shadow:0 2px 8px rgba(0,0,0,.3)}
.stats p{margin:5px 0;color:#ccc}
.stats strong{color:#fff}"#@,
{
    r#"body{font-family:-apple-system,BlinkMacSystemFont,'Segoe UI',Arial,sans-serif;margin:20px;background:#1a1a2e;color:#eee}
h1{color:#eee;margin-bottom:10px}
.grid{display:grid;grid-template-columns:repeat(auto-fill,minmax(220px,1fr));gap:15px}
.card{background:#16213e;border-radius:8px;padding:10px;box-shadow:0 2px 8px rgba(0,0,0,.3)}
svg{width:100%;height:200px;background:#0f0f23;border-radius:4px}
.polygon{fill:#e94560;stroke:#ff6b6b;stroke-width:1}
.rect{fill:rgba(66,133,244,.4);stroke:#4285f4;stroke-width:2}
.obstacle{fill:#ff4444;stroke:none}
.best-effort{fill:rgba(255,193,7,.3);stroke:#ffc107}
.hole{fill:none;stroke:#666;stroke-width:1;stroke-dasharray:3}
.info{margin-top:8px;font-size:11px;color:#aaa;line-height:1.4}
.stats{background:#16213e;padding:20px;border-radius:8px;margin-bottom:20px;box-shadow:0 2px 8px rgba(0,0,0,.3)}
.stats p{margin:5px 0;color:#ccc}
.stats strong{color:#fff}"#
}

/// CSS styles of the circle comparison page.
pub fn mic_styles() -> (s: &'static str)
    ensures
        s@ == r#"body{font-family:-apple-system,BlinkMacSystemFont,'Segoe UI',Arial,sans-serif;margin:20px;background:#1a1a2e;color:#eee}
h1{color:#eee;margin-bottom:10px}
.grid{display:grid;grid-template-columns:repeat(auto-fill,minmax(260px,1fr));gap:15px}
.card{background:#16213e;border-radius:8px;padding:10px;box-shadow:0 2px 8px rgba(0,0,0,.3)}
svg{width:100%;height:220px;background:#0f0f23;border-radius:4px}
.polygon{fill:#e9456033;stroke:#ff6b6b;stroke-width:1}
.hole{fill:none;stroke:#666;stroke-width:1;stroke-dasharray:3}
.mic-exact{fill:none;stroke:#60a5fa;stroke-width:2}
.pt-exact{fill:#60a5fa;stroke:none}
.mic-geos{fill:none;stroke:#22c55e;stroke-width:2;stroke-dasharray:4 2}
.pt-geos{fill:#22c55e;stroke:none}
.info{margin-top:8px;font-size:11px;color:#aaa;line-height:1.4}
.speed-exact{color:#60a5fa}
.speed-geos{color:#22c55e}
.speed-label{color:#fbbf24;font-weight:bold}
.diagnostics{color:#888;font-size:10px;display:block;margin-top:4px}
.stats{background:#16213e;padding:20px;border-radius:8px;margin-bottom:20px;box-shadow:0 2px 8px rgba(0,0,0,.3)}
.stats p{margin:5px 0;color:#ccc}
.stats strong{color:#fff}"#@,
{
    r#"body{font-family:-apple-system,BlinkMacSystemFont,'Segoe UI',Arial,sans-serif;margin:20px;background:#1a1a2e;color:#eee}
h1{color:#eee;margin-bottom:10px}
.grid{display:grid;grid-template-columns:repeat(auto-fill,minmax(260px,1fr));gap:15px}
.card{background:#16213e;border-radius:8px;padding:10px;box-shadow:0 2px 8px rgba(0,0,0,.3)}
svg{width:100%;height:220px;background:#0f0f23;border-radius:4px}
.polygon{fill:#e9456033;stroke:#ff6b6b;stroke-width:1}
.hole{fill:none;stroke:#666;stroke-width:1;stroke-dasharray:3}
.mic-exact{fill:none;stroke:#60a5fa;stroke-width:2}
.pt-exact{fill:#60a5fa;stroke:none}
.mic-geos{fill:none;stroke:#22c55e;stroke-width:2;stroke-dasharray:4 2}
.pt-geos{fill:#22c55e;stroke:none}
.info{margin-top:8px;font-size:11px;color:#aaa;line-height:1.4}
.speed-exact{color:#60a5fa}
.speed-geos{color:#22c55e}
.speed-label{color:#fbbf24;font-weight:bold}
.diagnostics{color:#888;font-size:10px;display:block;margin-top:4px}
.stats{background:#16213e;padding:20px;border-radius:8px;margin-bottom:20px;box-shadow:0 2px 8px rgba(0,0,0,.3)}
.stats p{margin:5px 0;color:#ccc}
.stats strong{color:#fff}"#
}

} // verus!
