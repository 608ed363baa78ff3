//! Ranking and selection of the GPUs found on the machine.

use vstd::prelude::*;
use vstd::string::StringExecFns;
use crate::text::{utf8, has_infix, ascii_lower_seq, ascii_lowercase_bytes, bytes_contain, bytes_eq};

verus! {

/// GPU vendor.
#[derive(Debug, Clone, Copy, PartialEq, Eq, Structural)]
pub enum GpuVendor {
    Nvidia,
    Amd,
    Intel,
    Apple,
    Unknown,
}

impl GpuVendor {
    /// Display name of the vendor.
    pub open spec fn spec_name(self) -> Seq<char> {
        match self {
            GpuVendor::Nvidia => "NVIDIA"@,
            GpuVendor::Amd => "AMD"@,
            GpuVendor::Intel => "Intel"@,
            GpuVendor::Apple => "Apple"@,
            GpuVendor::Unknown => "Unknown"@,
        }
    }

    pub fn as_str(&self) -> (r: &'static str)
        ensures
            r@ == self.spec_name(),
    {
        match self {
            GpuVendor::Nvidia => "NVIDIA",
            GpuVendor::Amd => "AMD",
            GpuVendor::Intel => "Intel",
            GpuVendor::Apple => "Apple",
            GpuVendor::Unknown => "Unknown",
        }
    }
}

/// Compute API a GPU is driven through.
#[derive(Debug, Clone, Copy, PartialEq, Eq, Structural)]
pub enum GpuBackend {
    Cuda,
    Rocm,
    Metal,
    OpenCl,
    Cpu,
    Unknown,
}

impl GpuBackend {
    /// Display name of the backend.
    pub open spec fn spec_name(self) -> Seq<char> {
        match self {
            GpuBackend::Cuda => "CUDA"@,
            GpuBackend::Rocm => "ROCm"@,
            GpuBackend::Metal => "Metal"@,
            GpuBackend::OpenCl => "OpenCL"@,
            GpuBackend::Cpu => "CPU"@,
            GpuBackend::Unknown => "Unknown"@,
        }
    }

    pub fn as_str(&self) -> (r: &'static str)
        ensures
            r@ == self.spec_name(),
    {
        match self {
            GpuBackend::Cuda => "CUDA",
            GpuBackend::Rocm => "ROCm",
            GpuBackend::Metal => "Metal",
            GpuBackend::OpenCl => "OpenCL",
            GpuBackend::Cpu => "CPU",
            GpuBackend::Unknown => "Unknown",
        }
    }
}

/// A detected GPU.
#[derive(Debug, Clone)]
pub struct GpuInfo {
    pub index: usize,
    pub name: String,
    pub vendor: GpuVendor,
    pub backend: GpuBackend,
    pub vram_mb: Option<u64>,
    pub driver_version: Option<String>,
    pub compute_capability: Option<String>,
    pub is_integrated: bool,
    pub pci_id: Option<String>,
}

impl GpuInfo {
    /// A copy of this description.
    pub fn copy_of(&self) -> (r: GpuInfo)
        ensures
            r == *self,
    {
        GpuInfo {
            index: self.index,
            name: self.name.clone(),
            vendor: self.vendor,
            backend: self.backend,
            vram_mb: self.vram_mb,
            driver_version: match &self.driver_version {
                Some(s) => Some(s.clone()),
                None => None,
            },
            compute_capability: match &self.compute_capability {
                Some(s) => Some(s.clone()),
                None => None,
            },
            is_integrated: self.is_integrated,
            pci_id: match &self.pci_id {
                Some(s) => Some(s.clone()),
                None => None,
            },
        }
    }
}

/// How the GPU was chosen.
#[derive(Debug, Clone, Copy, PartialEq, Eq, Structural)]
pub enum SelectionMethod {
    /// The only candidate.
    AutoSingle,
    /// The best-ranked of several candidates.
    AutoBest,
    /// Chosen at the interactive prompt.
    ManualPrompt,
    /// Chosen in the configuration.
    ManualConfig,
    /// Forced on the command line or in the environment.
    Forced,
}

/// The GPUs found and the choice made.
#[derive(Debug, Clone)]
pub struct GpuDetectionResult {
    pub gpus: Vec<GpuInfo>,
    pub selected_gpu: Option<GpuInfo>,
    pub selection_method: SelectionMethod,
    pub backend: GpuBackend,
}

/// Preference score of a GPU (higher is better): vendor, a bonus for
/// discrete cards, one point per GiB of VRAM up to 100, and the backend.
pub open spec fn preference_score(gpu: GpuInfo) -> int {
    let vendor: int = match gpu.vendor {
        GpuVendor::Nvidia => 1000,
        GpuVendor::Amd => 800,
        GpuVendor::Intel => 600,
        GpuVendor::Apple => 900,
        GpuVendor::Unknown => 100,
    };
    let discrete: int = if !gpu.is_integrated {
        500
    } else {
        0
    };
    let vram: int = match gpu.vram_mb {
        Some(v) => if v / 1024 < 100 {
            (v / 1024) as int
        } else {
            100
        },
        None => 0,
    };
    let backend: int = match gpu.backend {
        GpuBackend::Cuda => 200,
        GpuBackend::Metal => 150,
        GpuBackend::Rocm => 100,
        GpuBackend::OpenCl => 50,
        GpuBackend::Cpu => 0,
        GpuBackend::Unknown => 0,
    };
    vendor + discrete + vram + backend
}

pub fn gpu_preference_score(gpu: &GpuInfo) -> (r: i32)
    ensures
        r == preference_score(*gpu),
{
    let mut score: i32 = 0;
    score = score + match gpu.vendor {
        GpuVendor::Nvidia => 1000,
        GpuVendor::Amd => 800,
        GpuVendor::Intel => 600,
        GpuVendor::Apple => 900,
        GpuVendor::Unknown => 100,
    };
    if !gpu.is_integrated {
        score = score + 500;
    }
    match gpu.vram_mb {
        Some(vram) => {
            let gib = vram / 1024;
            let bonus: u64 = if gib < 100 {
                gib
            } else {
                100
            };
            score = score + bonus as i32;
        },
        None => {},
    }
    score = score + match gpu.backend {
        GpuBackend::Cuda => 200,
        GpuBackend::Metal => 150,
        GpuBackend::Rocm => 100,
        GpuBackend::OpenCl => 50,
        GpuBackend::Cpu => 0,
        GpuBackend::Unknown => 0,
    };
    score
}

/// `pat` occurs in the ASCII-lowercased name.
pub open spec fn name_mentions(name: Seq<char>, pat: Seq<char>) -> bool {
    has_infix(ascii_lower_seq(utf8(name)), utf8(pat))
}

/// Vendor guessed from a GPU's name, case-insensitively.
pub open spec fn vendor_of_name(name: Seq<char>) -> GpuVendor {
    if name_mentions(name, "nvidia"@) || name_mentions(name, "geforce"@) || name_mentions(
        name,
        "quadro"@,
    ) || name_mentions(name, "tesla"@) || name_mentions(name, "rtx"@) || name_mentions(
        name,
        "gtx"@,
    ) {
        GpuVendor::Nvidia
    } else if name_mentions(name, "amd"@) || name_mentions(name, "radeon"@) || name_mentions(
        name,
        "rx "@,
    ) || name_mentions(name, "firepro"@) {
        GpuVendor::Amd
    } else if name_mentions(name, "intel"@) || name_mentions(name, "uhd"@) || name_mentions(
        name,
        "iris"@,
    ) || name_mentions(name, "arc "@) || name_mentions(name, "hd graphics"@) {
        GpuVendor::Intel
    } else if name_mentions(name, "apple"@) || name_mentions(name, "m1"@) || name_mentions(
        name,
        "m2"@,
    ) || name_mentions(name, "m3"@) {
        GpuVendor::Apple
    } else {
        GpuVendor::Unknown
    }
}

pub fn detect_vendor_from_name(name: &str) -> (r: GpuVendor)
    ensures
        r == vendor_of_name(name@),
{
    let lower = ascii_lowercase_bytes(name.as_bytes());
    let n = lower.as_slice();
    if bytes_contain(n, "nvidia".as_bytes()) || bytes_contain(n, "geforce".as_bytes())
        || bytes_contain(n, "quadro".as_bytes()) || bytes_contain(n, "tesla".as_bytes())
        || bytes_contain(n, "rtx".as_bytes()) || bytes_contain(n, "gtx".as_bytes()) {
        GpuVendor::Nvidia
    } else if bytes_contain(n, "amd".as_bytes()) || bytes_contain(n, "radeon".as_bytes())
        || bytes_contain(n, "rx ".as_bytes()) || bytes_contain(n, "firepro".as_bytes()) {
        GpuVendor::Amd
    } else if bytes_contain(n, "intel".as_bytes()) || bytes_contain(n, "uhd".as_bytes())
        || bytes_contain(n, "iris".as_bytes()) || bytes_contain(n, "arc ".as_bytes())
        || bytes_contain(n, "hd graphics".as_bytes()) {
        GpuVendor::Intel
    } else if bytes_contain(n, "apple".as_bytes()) || bytes_contain(n, "m1".as_bytes())
        || bytes_contain(n, "m2".as_bytes()) || bytes_contain(n, "m3".as_bytes()) {
        GpuVendor::Apple
    } else {
        GpuVendor::Unknown
    }
}

/// The best-ranked GPU: the first of the list.
pub fn auto_select_gpu(gpus: &[GpuInfo]) -> (r: Option<GpuInfo>)
    ensures
        gpus@.len() == 0 ==> r is None,
        gpus@.len() > 0 ==> r == Some(gpus@[0]),
{
    if gpus.len() == 0 {
        None
    } else {
        Some(gpus[0].copy_of())
    }
}

/// `x` placed into `s` after every entry scoring at least as high.
pub open spec fn insert_ranked(s: Seq<GpuInfo>, x: GpuInfo) -> Seq<GpuInfo>
    decreases s.len(),
{
    if s.len() == 0 {
        seq![x]
    } else if preference_score(s.last()) >= preference_score(x) {
        s.push(x)
    } else {
        insert_ranked(s.drop_last(), x).push(s.last())
    }
}

/// The GPUs ordered by descending preference score; equal scores keep
/// their order.
pub open spec fn ranked(s: Seq<GpuInfo>) -> Seq<GpuInfo>
    decreases s.len(),
{
    if s.len() == 0 {
        Seq::empty()
    } else {
        insert_ranked(ranked(s.drop_last()), s.last())
    }
}

/// Scores never increase along the sequence.
pub open spec fn descending(s: Seq<GpuInfo>) -> bool {
    forall|i: int, j: int| 0 <= i < j < s.len() ==> preference_score(s[i]) >= preference_score(s[j])
}

proof fn lemma_insert_ranked(s: Seq<GpuInfo>, x: GpuInfo)
    requires
        descending(s),
    ensures
        descending(insert_ranked(s, x)),
        insert_ranked(s, x).len() == s.len() + 1,
        insert_ranked(s, x).to_multiset() == s.to_multiset().insert(x),
    decreases s.len(),
{
    broadcast use vstd::seq_lib::group_to_multiset_ensures;
    if s.len() == 0 {
        assert(insert_ranked(s, x) == seq![x]);
        assert(seq![x] == Seq::<GpuInfo>::empty().push(x));
    } else if preference_score(s.last()) >= preference_score(x) {
    } else {
        let d = s.drop_last();
        assert(descending(d));
        lemma_insert_ranked(d, x);
        let r = insert_ranked(d, x);
        assert(s == d.push(s.last()));
        assert forall|i: int, j: int| 0 <= i < j < r.push(s.last()).len() implies preference_score(
            r.push(s.last())[i],
        ) >= preference_score(r.push(s.last())[j]) by {
            if j == r.len() {
                let e = r[i];
                assert(r.to_multiset().count(e) > 0);
                assert(d.to_multiset().insert(x).count(e) > 0);
                if e != x {
                    assert(d.to_multiset().count(e) > 0);
                    assert(d.contains(e));
                    let k = choose|k: int| 0 <= k < d.len() && d[k] == e;
                    assert(s[k] == e);
                }
            }
        }
    }
}

/// Ranking sorts by descending score and keeps every GPU.
pub proof fn lemma_ranked(s: Seq<GpuInfo>)
    ensures
        descending(ranked(s)),
        ranked(s).len() == s.len(),
        ranked(s).to_multiset() == s.to_multiset(),
    decreases s.len(),
{
    broadcast use vstd::seq_lib::group_to_multiset_ensures;
    if s.len() > 0 {
        lemma_ranked(s.drop_last());
        lemma_insert_ranked(ranked(s.drop_last()), s.last());
        assert(s == s.drop_last().push(s.last()));
    }
}

/// Orders the GPUs by descending preference score (stable) and numbers them
/// from 0 in that order.
pub fn rank_gpus(gpus: Vec<GpuInfo>) -> (r: Vec<GpuInfo>)
    ensures
        r@.len() == gpus@.len(),
        forall|i: int|
            0 <= i < r@.len() ==> #[trigger] r@[i] == (GpuInfo { index: i as usize, ..ranked(gpus@)[i] }),
{
    let ghost input = gpus@;
    let mut sorted: Vec<GpuInfo> = Vec::new();
    let mut rest = gpus;
    let mut k: usize = 0;
    let n = rest.len();
    while k < n
        invariant
            n == input.len(),
            rest@ == input,
            k <= n,
            sorted@ == ranked(input.subrange(0, k as int)),
        decreases n - k,
    {
        let x = rest[k].copy_of();
        let ghost pre = input.subrange(0, k as int);
        assert(input.subrange(0, k + 1).drop_last() =~= pre);
        assert(input.subrange(0, k + 1).last() == x);
        let sx = gpu_preference_score(&x);
        let mut pos = sorted.len();
        proof {
            assert(sorted@.subrange(0, pos as int) =~= sorted@);
            assert(insert_ranked(sorted@, x) =~= insert_ranked(sorted@.subrange(0, pos as int), x)
                + sorted@.subrange(pos as int, sorted@.len() as int));
        }
        while pos > 0
            invariant
                pos <= sorted@.len(),
                sorted@ == ranked(pre),
                insert_ranked(sorted@, x) == insert_ranked(sorted@.subrange(0, pos as int), x) + sorted@.subrange(
                    pos as int,
                    sorted@.len() as int,
                ),
                sx == preference_score(x),
            ensures
                pos <= sorted@.len(),
                insert_ranked(sorted@, x) == insert_ranked(sorted@.subrange(0, pos as int), x) + sorted@.subrange(
                    pos as int,
                    sorted@.len() as int,
                ),
                pos > 0 ==> preference_score(sorted@[pos - 1]) >= preference_score(x),
            decreases pos,
        {
            let s_prev = gpu_preference_score(&sorted[pos - 1]);
            if s_prev >= sx {
                break;
            }
            proof {
                let t = sorted@.subrange(0, pos as int);
                assert(t.drop_last() =~= sorted@.subrange(0, pos - 1));
                assert(t.last() == sorted@[pos - 1]);
                assert(insert_ranked(t, x) == insert_ranked(t.drop_last(), x).push(t.last()));
                assert(sorted@.subrange(pos - 1, sorted@.len() as int) =~= seq![sorted@[pos - 1]]
                    + sorted@.subrange(pos as int, sorted@.len() as int));
            }
            pos = pos - 1;
        }
        proof {
            let t = sorted@.subrange(0, pos as int);
            if pos > 0 {
                assert(t.last() == sorted@[pos - 1]);
                assert(insert_ranked(t, x) == t.push(x));
            } else {
                assert(insert_ranked(t, x) == seq![x]);
            }
        }
        let ghost before = sorted@;
        sorted.insert(pos, x);
        proof {
            assert(sorted@ =~= before.subrange(0, pos as int).push(x) + before.subrange(
                pos as int,
                before.len() as int,
            ));
        }
        k = k + 1;
    }
    assert(input.subrange(0, n as int) =~= input);
    let mut out: Vec<GpuInfo> = Vec::new();
    let mut i: usize = 0;
    proof {
        lemma_ranked(input);
    }
    while i < sorted.len()
        invariant
            sorted@ == ranked(input),
            sorted@.len() == input.len(),
            i <= sorted@.len(),
            out@.len() == i,
            forall|j: int|
                0 <= j < i ==> #[trigger] out@[j] == (GpuInfo { index: j as usize, ..ranked(input)[j] }),
        decreases sorted@.len() - i,
    {
        let mut g = sorted[i].copy_of();
        g.index = i;
        out.push(g);
        i = i + 1;
    }
    out
}

/// The backend a preference string names, for filtering candidates:
/// `cuda`, `rocm`, `metal` or `opencl`, case-insensitively.
pub open spec fn preferred_backend(pref: Seq<char>) -> Option<GpuBackend> {
    let l = ascii_lower_seq(utf8(pref));
    if l == utf8("cuda"@) {
        Some(GpuBackend::Cuda)
    } else if l == utf8("rocm"@) {
        Some(GpuBackend::Rocm)
    } else if l == utf8("metal"@) {
        Some(GpuBackend::Metal)
    } else if l == utf8("opencl"@) {
        Some(GpuBackend::OpenCl)
    } else {
        None
    }
}

pub fn parse_preferred_backend(pref: &str) -> (r: Option<GpuBackend>)
    ensures
        r == preferred_backend(pref@),
{
    let l = ascii_lowercase_bytes(pref.as_bytes());
    let ls = l.as_slice();
    if bytes_eq(ls, "cuda".as_bytes()) {
        Some(GpuBackend::Cuda)
    } else if bytes_eq(ls, "rocm".as_bytes()) {
        Some(GpuBackend::Rocm)
    } else if bytes_eq(ls, "metal".as_bytes()) {
        Some(GpuBackend::Metal)
    } else if bytes_eq(ls, "opencl".as_bytes()) {
        Some(GpuBackend::OpenCl)
    } else {
        None
    }
}

/// GPUs on the given backend, in order.
pub open spec fn on_backend(gpus: Seq<GpuInfo>, b: GpuBackend) -> Seq<GpuInfo> {
    gpus.filter(|g: GpuInfo| g.backend == b)
}

/// The candidates for selection: the GPUs on the preferred backend when a
/// known one is named, else all of them.
pub fn selection_candidates(gpus: &Vec<GpuInfo>, preferred: Option<&str>) -> (r: Vec<GpuInfo>)
    ensures
        r@ == (match preferred {
            Some(p) => match preferred_backend(p@) {
                Some(b) => on_backend(gpus@, b),
                None => gpus@,
            },
            None => gpus@,
        }),
{
    let b = match preferred {
        Some(p) => parse_preferred_backend(p),
        None => None,
    };
    let mut out: Vec<GpuInfo> = Vec::new();
    let mut i: usize = 0;
    while i < gpus.len()
        invariant
            i <= gpus@.len(),
            out@ == (match b {
                Some(bk) => gpus@.subrange(0, i as int).filter(|g: GpuInfo| g.backend == bk),
                None => gpus@.subrange(0, i as int),
            }),
        decreases gpus@.len() - i,
    {
        let g = gpus[i].copy_of();
        proof {
            let s = gpus@.subrange(0, i + 1);
            assert(s.drop_last() =~= gpus@.subrange(0, i as int));
            assert(s.last() == g);
        }
        match b {
            Some(bk) => {
                if g.backend == bk {
                    out.push(g);
                }
            },
            None => {
                out.push(g);
            },
        }
        proof {
            match b {
                Some(bk) => {
                    let s = gpus@.subrange(0, i + 1);
                    assert(s.filter(|g: GpuInfo| g.backend == bk) == s.drop_last().filter(
                        |g: GpuInfo| g.backend == bk,
                    ) + (if s.last().backend == bk {
                        seq![s.last()]
                    } else {
                        Seq::empty()
                    })) by {
                        reveal(Seq::filter);
                    }
                    assert(out@ =~= s.filter(|g: GpuInfo| g.backend == bk));
                },
                None => {
                    assert(out@ =~= gpus@.subrange(0, i + 1));
                },
            }
        }
        i = i + 1;
    }
    proof {
        assert(gpus@.subrange(0, gpus@.len() as int) =~= gpus@);
    }
    out
}

/// The choice made without a prompt: the only candidate, else the first
/// (best-ranked) candidate; with no candidates, the same among all GPUs.
pub open spec fn auto_choice(gpus: Seq<GpuInfo>, candidates: Seq<GpuInfo>) -> (Option<GpuInfo>, SelectionMethod) {
    if candidates.len() == 1 {
        (Some(candidates[0]), SelectionMethod::AutoSingle)
    } else if candidates.len() > 1 {
        (Some(candidates[0]), SelectionMethod::AutoBest)
    } else if gpus.len() == 1 {
        (Some(gpus[0]), SelectionMethod::AutoSingle)
    } else if gpus.len() > 1 {
        (Some(gpus[0]), SelectionMethod::AutoBest)
    } else {
        (None, SelectionMethod::AutoBest)
    }
}

/// The GPU chosen without a prompt, and how.
pub fn choose_gpu(gpus: &Vec<GpuInfo>, candidates: &Vec<GpuInfo>) -> (r: (Option<GpuInfo>, SelectionMethod))
    ensures
        r == auto_choice(gpus@, candidates@),
{
    if candidates.len() == 1 {
        (Some(candidates[0].copy_of()), SelectionMethod::AutoSingle)
    } else if candidates.len() > 1 {
        (auto_select_gpu(candidates.as_slice()), SelectionMethod::AutoBest)
    } else if gpus.len() == 1 {
        (Some(gpus[0].copy_of()), SelectionMethod::AutoSingle)
    } else {
        (auto_select_gpu(gpus.as_slice()), SelectionMethod::AutoBest)
    }
}

/// Whether the user is asked: prompting is on and there is more than one
/// candidate.
pub fn should_prompt(prompt: bool, candidates: &Vec<GpuInfo>) -> (r: bool)
    ensures
        r == (prompt && candidates@.len() > 1),
{
    prompt && candidates.len() > 1
}

/// The detection result for a choice: the backend of the chosen GPU, or the
/// CPU when none was chosen.
pub fn detection_result(gpus: Vec<GpuInfo>, selected: Option<GpuInfo>, method: SelectionMethod) -> (r:
    GpuDetectionResult)
    ensures
        r.gpus@ == gpus@,
        r.selected_gpu == selected,
        r.selection_method == method,
        r.backend == (match selected {
            Some(g) => g.backend,
            None => GpuBackend::Cpu,
        }),
{
    let backend = match &selected {
        Some(g) => g.backend,
        None => GpuBackend::Cpu,
    };
    GpuDetectionResult { gpus, selected_gpu: selected, selection_method: method, backend }
}

/// The result when no GPU was found: the CPU.
pub fn no_gpu_result() -> (r: GpuDetectionResult)
    ensures
        r.gpus@.len() == 0,
        r.selected_gpu is None,
        r.selection_method == SelectionMethod::AutoSingle,
        r.backend == GpuBackend::Cpu,
{
    GpuDetectionResult {
        gpus: Vec::new(),
        selected_gpu: None,
        selection_method: SelectionMethod::AutoSingle,
        backend: GpuBackend::Cpu,
    }
}

/// The GPUs that selection chooses among (see `selection_candidates`).
pub open spec fn candidates_for(gpus: Seq<GpuInfo>, preferred: Option<&str>) -> Seq<GpuInfo> {
    match preferred {
        Some(p) => match preferred_backend(p@) {
            Some(b) => on_backend(gpus, b),
            None => gpus,
        },
        None => gpus,
    }
}

/// Detection and selection put together: no GPU gives the CPU; when the
/// user was asked (prompting on and more than one candidate) the answer
/// `picked` (a candidate's position, or `None` for the CPU) decides;
/// otherwise the choice is made without asking.
pub fn gpu_selection(gpus: Vec<GpuInfo>, preferred: Option<&str>, prompt: bool, picked: Option<usize>) -> (r:
    GpuDetectionResult)
    ensures
        ({
            let cands = candidates_for(gpus@, preferred);
            if gpus@.len() == 0 {
                &&& r.gpus@.len() == 0
                &&& r.selected_gpu is None
                &&& r.selection_method == SelectionMethod::AutoSingle
                &&& r.backend == GpuBackend::Cpu
            } else {
                let (sel, method) = if prompt && cands.len() > 1 {
                    (
                        match picked {
                            Some(i) => if i < cands.len() {
                                Some(cands[i as int])
                            } else {
                                None
                            },
                            None => None,
                        },
                        SelectionMethod::ManualPrompt,
                    )
                } else {
                    auto_choice(gpus@, cands)
                };
                &&& r.gpus@ == gpus@
                &&& r.selected_gpu == sel
                &&& r.selection_method == method
                &&& r.backend == (match sel {
                    Some(g) => g.backend,
                    None => GpuBackend::Cpu,
                })
            }
        }),
{
    if gpus.len() == 0 {
        return no_gpu_result();
    }
    let candidates = selection_candidates(&gpus, preferred);
    let (selected, method) = if should_prompt(prompt, &candidates) {
        let sel = match picked {
            Some(i) => if i < candidates.len() {
                Some(candidates[i].copy_of())
            } else {
                None
            },
            None => None,
        };
        (sel, SelectionMethod::ManualPrompt)
    } else {
        choose_gpu(&gpus, &candidates)
    };
    detection_result(gpus, selected, method)
}

/// The UTF-8 bytes of an ASCII literal are its characters, one byte each.
proof fn lemma_ascii_literal(s: Seq<char>)
    requires
        vstd::utf8::is_ascii_chars(s),
    ensures
        utf8(s) == s.map_values(|c: char| c as u8),
{
    vstd::utf8::is_ascii_chars_encode_utf8(s);
    assert(utf8(s) =~= s.map_values(|c: char| c as u8));
}

/// The GPU backends that a preference can name.
pub open spec fn selectable(b: GpuBackend) -> bool {
    b == GpuBackend::Cuda || b == GpuBackend::Rocm || b == GpuBackend::Metal || b == GpuBackend::OpenCl
}

/// Every GPU backend a preference can name is named by its display name,
/// in any ASCII letter case: a preference string that lowercases to the
/// lowercased display name of CUDA, ROCm, Metal or OpenCL selects exactly
/// that backend.
pub proof fn lemma_backend_names_parse_back(b: GpuBackend, pref: Seq<char>)
    requires
        selectable(b),
        ascii_lower_seq(utf8(pref)) == ascii_lower_seq(utf8(b.spec_name())),
    ensures
        preferred_backend(pref) == Some(b),
{
    reveal_strlit("CUDA");
    reveal_strlit("ROCm");
    reveal_strlit("Metal");
    reveal_strlit("OpenCL");
    reveal_strlit("cuda");
    reveal_strlit("rocm");
    reveal_strlit("metal");
    reveal_strlit("opencl");
    let names = seq!["CUDA"@, "ROCm"@, "Metal"@, "OpenCL"@, "cuda"@, "rocm"@, "metal"@, "opencl"@];
    assert forall|k: int| 0 <= k < names.len() implies vstd::utf8::is_ascii_chars(#[trigger] names[k]) by {}
    lemma_ascii_literal("CUDA"@);
    lemma_ascii_literal("ROCm"@);
    lemma_ascii_literal("Metal"@);
    lemma_ascii_literal("OpenCL"@);
    lemma_ascii_literal("cuda"@);
    lemma_ascii_literal("rocm"@);
    lemma_ascii_literal("metal"@);
    lemma_ascii_literal("opencl"@);
    let l = ascii_lower_seq(utf8(pref));
    assert(ascii_lower_seq(utf8("CUDA"@)) =~= utf8("cuda"@));
    assert(ascii_lower_seq(utf8("ROCm"@)) =~= utf8("rocm"@));
    assert(ascii_lower_seq(utf8("Metal"@)) =~= utf8("metal"@));
    assert(ascii_lower_seq(utf8("OpenCL"@)) =~= utf8("opencl"@));
    assert(utf8("cuda"@) != utf8("rocm"@)) by {
        assert(utf8("cuda"@)[0] != utf8("rocm"@)[0]);
    }
    assert(utf8("cuda"@) != utf8("metal"@)) by {
        assert(utf8("cuda"@).len() != utf8("metal"@).len());
    }
    assert(utf8("cuda"@) != utf8("opencl"@)) by {
        assert(utf8("cuda"@).len() != utf8("opencl"@).len());
    }
    assert(utf8("rocm"@) != utf8("metal"@)) by {
        assert(utf8("rocm"@).len() != utf8("metal"@).len());
    }
    assert(utf8("rocm"@) != utf8("opencl"@)) by {
        assert(utf8("rocm"@).len() != utf8("opencl"@).len());
    }
    assert(utf8("metal"@) != utf8("opencl"@)) by {
        assert(utf8("metal"@).len() != utf8("opencl"@).len());
    }
}

} // verus!
