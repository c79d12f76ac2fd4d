//! Static checks of a pipeline definition: names, references, operator
//! settings, slot schemas, JS syntax and dependency cycles. Errors make a
//! definition unusable; warnings flag what is likely a mistake.

use vstd::prelude::*;
use crate::text::{chars_of, ascii_alnum, is_ascii_alnum, push_str, push_char, push_u128, nat_text, split, strs_view, push_string};
use crate::json::{Json, JsonV, jv};
use crate::float::{FloatValue, float_le_zero, float_gt_int, nonfinite_text};
use crate::dsl::step::{StepDef, StepId, StepOp, IterateConfig, RetryDef, BatchConfig, ids_view};
use crate::dsl::pipeline::{PipelineDef, SlotDef};
use crate::dsl::variable::{RefValue, TemplatePart, TPartV, parts_view};
use crate::dsl::refs::{str_is, is_known, op_refs, op_refs_exec, pairs_view, ref_pair, json_refs, collect_json_refs, ref_pair_exec};
use crate::graph::{layer_graph, layering_ok, graph_ok, graph_view, has_cycle, lemma_rest_is_cycle};

verus! {

/// The outcome of validation.
#[derive(Debug)]
pub struct ValidationReport {
    pub errors: Vec<ValidationError>,
    pub warnings: Vec<ValidationWarning>,
}

impl ValidationReport {
    /// No errors (warnings allowed).
    pub fn is_ok(&self) -> (r: bool)
        ensures
            r == (self.errors@.len() == 0),
    {
        self.errors.len() == 0
    }
}

#[derive(Debug)]
pub struct ValidationError {
    pub code: String,
    pub message: String,
}

#[derive(Debug)]
pub struct ValidationWarning {
    pub code: String,
    pub message: String,
}

/// A finding: its code and its message.
pub type Issue = (Seq<char>, Seq<char>);

pub open spec fn errors_view(v: Seq<ValidationError>) -> Seq<Issue> {
    v.map_values(|e: ValidationError| (e.code@, e.message@))
}

pub open spec fn warnings_view(v: Seq<ValidationWarning>) -> Seq<Issue> {
    v.map_values(|e: ValidationWarning| (e.code@, e.message@))
}

fn push_error(report: &mut ValidationReport, code: &str, message: String)
    ensures
        errors_view(final(report).errors@) == errors_view(old(report).errors@).push((code@, message@)),
        final(report).warnings@ == old(report).warnings@,
{
    let e = ValidationError { code: crate::text::to_string(code), message };
    report.errors.push(e);
    assert(errors_view(report.errors@) =~= errors_view(old(report).errors@).push((code@, message@)));
}

fn push_warning(report: &mut ValidationReport, code: &str, message: String)
    ensures
        warnings_view(final(report).warnings@) == warnings_view(old(report).warnings@).push((code@, message@)),
        final(report).errors@ == old(report).errors@,
{
    let e = ValidationWarning { code: crate::text::to_string(code), message };
    report.warnings.push(e);
    assert(warnings_view(report.warnings@) =~= warnings_view(old(report).warnings@).push((code@, message@)));
}

/// `a + b`.
fn cat2(a: &str, b: &str) -> (r: String)
    ensures
        r@ == a@ + b@,
{
    let mut s = String::new();
    push_str(&mut s, a);
    push_str(&mut s, b);
    assert(s@ =~= a@ + b@);
    s
}

/// `a + b + c`.
fn cat3(a: &str, b: &str, c: &str) -> (r: String)
    ensures
        r@ == a@ + b@ + c@,
{
    let mut s = String::new();
    push_str(&mut s, a);
    push_str(&mut s, b);
    push_str(&mut s, c);
    assert(s@ =~= a@ + b@ + c@);
    s
}

/// `a + b + c + d`.
fn cat4(a: &str, b: &str, c: &str, d: &str) -> (r: String)
    ensures
        r@ == a@ + b@ + c@ + d@,
{
    let mut s = String::new();
    push_str(&mut s, a);
    push_str(&mut s, b);
    push_str(&mut s, c);
    push_str(&mut s, d);
    assert(s@ =~= a@ + b@ + c@ + d@);
    s
}

/// `a + b + c + d + e`.
fn cat5(a: &str, b: &str, c: &str, d: &str, e: &str) -> (r: String)
    ensures
        r@ == a@ + b@ + c@ + d@ + e@,
{
    let mut s = String::new();
    push_str(&mut s, a);
    push_str(&mut s, b);
    push_str(&mut s, c);
    push_str(&mut s, d);
    push_str(&mut s, e);
    assert(s@ =~= a@ + b@ + c@ + d@ + e@);
    s
}

/// The decimal text of `n`.
fn num_text(n: u64) -> (r: String)
    ensures
        r@ == nat_text(n as nat),
{
    let mut s = String::new();
    push_u128(&mut s, n as u128);
    assert(s@ =~= nat_text(n as nat));
    s
}

// ---------------------------------------------------------------------------
// Names
// ---------------------------------------------------------------------------

/// Characters of a pipeline name: `[A-Za-z0-9_.-]`.
pub open spec fn pipeline_name_char(c: char) -> bool {
    is_ascii_alnum(c) || c == '_' || c == '.' || c == '-'
}

/// Characters of a step id or slot name: `[A-Za-z0-9_-]`.
pub open spec fn id_char(c: char) -> bool {
    is_ascii_alnum(c) || c == '_' || c == '-'
}

/// Characters of an iteration variable: `[A-Za-z0-9_]`.
pub open spec fn as_char(c: char) -> bool {
    is_ascii_alnum(c) || c == '_'
}

pub open spec fn all_pipeline_name_chars(s: Seq<char>) -> bool {
    forall|k: int| 0 <= k < s.len() ==> pipeline_name_char(#[trigger] s[k])
}

pub open spec fn all_id_chars(s: Seq<char>) -> bool {
    forall|k: int| 0 <= k < s.len() ==> id_char(#[trigger] s[k])
}

pub open spec fn all_as_chars(s: Seq<char>) -> bool {
    forall|k: int| 0 <= k < s.len() ==> as_char(#[trigger] s[k])
}

pub open spec fn all_dots(s: Seq<char>) -> bool {
    forall|k: int| 0 <= k < s.len() ==> #[trigger] s[k] == '.'
}

/// What a class of characters to check.
#[derive(Clone, Copy)]
enum CharClass {
    PipelineName,
    Id,
    AsName,
    Dot,
}

spec fn in_class(k: CharClass, c: char) -> bool {
    match k {
        CharClass::PipelineName => pipeline_name_char(c),
        CharClass::Id => id_char(c),
        CharClass::AsName => as_char(c),
        CharClass::Dot => c == '.',
    }
}

fn char_in_class(k: CharClass, c: char) -> (r: bool)
    ensures
        r == in_class(k, c),
{
    match k {
        CharClass::PipelineName => ascii_alnum(c) || c == '_' || c == '.' || c == '-',
        CharClass::Id => ascii_alnum(c) || c == '_' || c == '-',
        CharClass::AsName => ascii_alnum(c) || c == '_',
        CharClass::Dot => c == '.',
    }
}

fn all_in_class(s: &str, k: CharClass) -> (r: bool)
    ensures
        r == forall|i: int| 0 <= i < s@.len() ==> in_class(k, #[trigger] s@[i]),
{
    let cs = chars_of(s);
    let mut i: usize = 0;
    while i < cs.len()
        invariant
            i <= cs@.len(),
            cs@ == s@,
            forall|j: int| 0 <= j < i ==> in_class(k, #[trigger] s@[j]),
        decreases cs@.len() - i,
    {
        if !char_in_class(k, cs[i]) {
            return false;
        }
        i = i + 1;
    }
    true
}

/// A valid pipeline name: nonempty, of `[A-Za-z0-9_.-]`.
pub fn is_valid_pipeline_name(name: &str) -> (r: bool)
    ensures
        r == (name@.len() > 0 && all_pipeline_name_chars(name@)),
{
    let ok = all_in_class(name, CharClass::PipelineName);
    assert(ok == all_pipeline_name_chars(name@)) by {
        if ok {
            assert forall|k: int| 0 <= k < name@.len() implies pipeline_name_char(#[trigger] name@[k]) by {
                assert(in_class(CharClass::PipelineName, name@[k]));
            }
        }
        if all_pipeline_name_chars(name@) {
            assert forall|k: int| 0 <= k < name@.len() implies in_class(CharClass::PipelineName, #[trigger] name@[k]) by {
                assert(pipeline_name_char(name@[k]));
            }
        }
    }
    name.unicode_len() > 0 && ok
}

/// A valid step id: nonempty, of `[A-Za-z0-9_-]`.
pub fn is_valid_step_id(id: &str) -> (r: bool)
    ensures
        r == (id@.len() > 0 && all_id_chars(id@)),
{
    let ok = all_in_class(id, CharClass::Id);
    assert(ok == all_id_chars(id@)) by {
        if ok {
            assert forall|k: int| 0 <= k < id@.len() implies id_char(#[trigger] id@[k]) by {
                assert(in_class(CharClass::Id, id@[k]));
            }
        }
        if all_id_chars(id@) {
            assert forall|k: int| 0 <= k < id@.len() implies in_class(CharClass::Id, #[trigger] id@[k]) by {
                assert(id_char(id@[k]));
            }
        }
    }
    id.unicode_len() > 0 && ok
}

/// A valid slot name: nonempty, of `[A-Za-z0-9_-]`.
pub fn is_valid_slot_name(name: &str) -> (r: bool)
    ensures
        r == (name@.len() > 0 && all_id_chars(name@)),
{
    is_valid_step_id(name)
}

fn is_all_dots(s: &str) -> (r: bool)
    ensures
        r == all_dots(s@),
{
    let ok = all_in_class(s, CharClass::Dot);
    assert(ok == all_dots(s@)) by {
        if ok {
            assert forall|k: int| 0 <= k < s@.len() implies #[trigger] s@[k] == '.' by {
                assert(in_class(CharClass::Dot, s@[k]));
            }
        }
    }
    ok
}

fn is_as_name(s: &str) -> (r: bool)
    ensures
        r == all_as_chars(s@),
{
    let ok = all_in_class(s, CharClass::AsName);
    assert(ok == all_as_chars(s@)) by {
        if ok {
            assert forall|k: int| 0 <= k < s@.len() implies as_char(#[trigger] s@[k]) by {
                assert(in_class(CharClass::AsName, s@[k]));
            }
        }
        if all_as_chars(s@) {
            assert forall|k: int| 0 <= k < s@.len() implies in_class(CharClass::AsName, #[trigger] s@[k]) by {
                assert(as_char(s@[k]));
            }
        }
    }
    ok
}

/// The findings on the pipeline's name.
pub open spec fn name_errors(name: Seq<char>) -> Seq<Issue> {
    if name.len() == 0 {
        seq![("empty_pipeline_name"@, "Pipeline 名称不能为空"@)]
    } else if !all_pipeline_name_chars(name) {
        seq![("invalid_name_charset"@, "Pipeline 名称含非法字符（仅允许 [A-Za-z0-9_.-]）: "@ + name)]
    } else if all_dots(name) {
        seq![("invalid_pipeline_name"@, "Pipeline 名称不能全为 '.'（URL 归一化后不可达）: "@ + name)]
    } else {
        Seq::empty()
    }
}

fn check_name(report: &mut ValidationReport, name: &str)
    ensures
        errors_view(final(report).errors@) == errors_view(old(report).errors@) + name_errors(name@),
        final(report).warnings@ == old(report).warnings@,
{
    if name.unicode_len() == 0 {
        push_error(report, "empty_pipeline_name", crate::text::to_string("Pipeline 名称不能为空"));
    } else if !is_valid_pipeline_name(name) {
        push_error(report, "invalid_name_charset", cat2("Pipeline 名称含非法字符（仅允许 [A-Za-z0-9_.-]）: ", name));
    } else if is_all_dots(name) {
        push_error(report, "invalid_pipeline_name", cat2("Pipeline 名称不能全为 '.'（URL 归一化后不可达）: ", name));
    }
    assert(errors_view(report.errors@) =~= errors_view(old(report).errors@) + name_errors(name@));
}

// ---------------------------------------------------------------------------
// Steps
// ---------------------------------------------------------------------------

/// The step identifiers, in order.
pub open spec fn step_ids(def: PipelineDef) -> Seq<Seq<char>> {
    Seq::new(def.steps@.len(), |i: int| def.steps@[i].id.0@)
}

pub open spec fn one(code: Seq<char>, msg: Seq<char>) -> Seq<Issue> {
    seq![(code, msg)]
}

pub open spec fn none() -> Seq<Issue> {
    Seq::empty()
}

pub open spec fn is_reserved(s: Seq<char>) -> bool {
    s == "slots"@ || s == "env"@
}

#[verifier::opaque]
pub open spec fn id_errors(id: Seq<char>) -> Seq<Issue> {
    if id.len() == 0 {
        one("empty_step_id"@, "步骤 ID 不能为空"@)
    } else if !all_id_chars(id) {
        one("invalid_name_charset"@, "步骤 ID 含非法字符（仅允许 [A-Za-z0-9_-]）: "@ + id)
    } else {
        none()
    }
}

#[verifier::opaque]
pub open spec fn reserved_errors(id: Seq<char>) -> Seq<Issue> {
    if is_reserved(id) {
        one("reserved_step_id"@, "步骤 ID 不能使用保留名称: "@ + id)
    } else {
        none()
    }
}

/// A repeated step identifier (the first occurrence is not flagged).
#[verifier::opaque]
pub open spec fn duplicate_errors(ids: Seq<Seq<char>>, i: int) -> Seq<Issue> {
    if ids[i].len() > 0 && ids.subrange(0, i).contains(ids[i]) {
        one("duplicate_step_id"@, "步骤 ID 重复: "@ + ids[i])
    } else {
        none()
    }
}

pub open spec fn after_view(step: StepDef) -> Seq<Seq<char>> {
    match step.after {
        Some(a) => ids_view(a@),
        None => Seq::empty(),
    }
}

/// `after` entries (among the first `n`) naming the step itself.
pub open spec fn after_self_errors(id: Seq<char>, after: Seq<Seq<char>>, n: int) -> Seq<Issue>
    decreases n,
{
    if n <= 0 {
        none()
    } else {
        after_self_errors(id, after, n - 1) + if after[n - 1] == id {
            one("after_self_ref"@, "步骤 "@ + id + " 的 after 不能引用自身"@)
        } else {
            none()
        }
    }
}

/// `after` entries (among the first `n`) repeating an earlier one.
pub open spec fn after_dup_errors(id: Seq<char>, after: Seq<Seq<char>>, n: int) -> Seq<Issue>
    decreases n,
{
    if n <= 0 {
        none()
    } else {
        after_dup_errors(id, after, n - 1) + if after.subrange(0, n - 1).contains(after[n - 1]) {
            one("duplicate_after_entry"@, "步骤 "@ + id + " 的 after 中存在重复: "@ + after[n - 1])
        } else {
            none()
        }
    }
}

/// `after` entries naming the step itself, then repeated entries.
#[verifier::opaque]
pub open spec fn after_errors(id: Seq<char>, after: Seq<Seq<char>>) -> Seq<Issue> {
    after_self_errors(id, after, after.len() as int) + after_dup_errors(id, after, after.len() as int)
}

pub open spec fn as_name_of(step: StepDef) -> Option<Seq<char>> {
    match step.iterate {
        Some(c) => Some(c.as_name@),
        None => None,
    }
}

/// A reference's first segment checked against the step identifiers.
pub open spec fn ref_prefix_error(id: Seq<char>, ids: Seq<Seq<char>>, as_name: Option<Seq<char>>, prefix: Seq<char>) -> Seq<Issue> {
    if as_name == Some(prefix) {
        none()
    } else if prefix == id {
        one("self_reference"@, "步骤 "@ + id + " 的 inputs 引用了自身"@)
    } else if !is_reserved(prefix) && !ids.contains(prefix) {
        one("variable_ref_not_found"@, "步骤 "@ + id + " 中引用了不存在的步骤: "@ + prefix)
    } else {
        none()
    }
}

/// The findings on the first `n` references.
pub open spec fn refs_errors(id: Seq<char>, ids: Seq<Seq<char>>, as_name: Option<Seq<char>>, refs: Seq<(Seq<char>, Seq<char>)>, n: int) -> Seq<Issue>
    decreases n,
{
    if n <= 0 {
        none()
    } else {
        refs_errors(id, ids, as_name, refs, n - 1) + ref_prefix_error(id, ids, as_name, refs[n - 1].0)
    }
}

#[verifier::opaque]
pub open spec fn input_ref_errors(step: StepDef, ids: Seq<Seq<char>>) -> Seq<Issue> {
    let refs = op_refs(step.op);
    refs_errors(step.id.0@, ids, as_name_of(step), refs, refs.len() as int)
}

pub open spec fn as_errors(id: Seq<char>, ids: Seq<Seq<char>>, a: Seq<char>) -> Seq<Issue> {
    if a.len() == 0 {
        one("invalid_iterate_config"@, "步骤 "@ + id + " 的 iterate.as 不能为空"@)
    } else {
        (if !all_as_chars(a) {
            one("invalid_iterate_config"@, "步骤 "@ + id + " 的 iterate.as 含非法字符（仅允许 [A-Za-z0-9_]）: "@ + a)
        } else {
            none()
        }) + (if is_reserved(a) {
            one("invalid_iterate_config"@, "步骤 "@ + id + " 的 iterate.as 不能使用保留前缀: "@ + a)
        } else {
            none()
        }) + (if ids.contains(a) {
            one("invalid_iterate_config"@, "步骤 "@ + id + " 的 iterate.as 与步骤 id 冲突: "@ + a)
        } else {
            none()
        })
    }
}

pub open spec fn workers_errors(id: Seq<char>, mw: Option<u32>) -> Seq<Issue> {
    (if mw == Some(0u32) {
        one("invalid_iterate_config"@, "步骤 "@ + id + " 的 iterate.max_workers 不能为 0（缺省可移除该字段）"@)
    } else {
        none()
    }) + (match mw {
        Some(w) => if w > 1024 {
            one("invalid_iterate_config"@, "步骤 "@ + id + " 的 iterate.max_workers 超过上限 1024: "@ + nat_text(w as nat))
        } else {
            none()
        },
        None => none(),
    })
}

pub open spec fn batch_errors(id: Seq<char>, batch: Option<BatchConfig>) -> Seq<Issue> {
    match batch {
        Some(b) => if b.size == 0 {
            one("invalid_iterate_config"@, "步骤 "@ + id + " 的 iterate.batch.size 不能为 0（缺省可移除 batch 字段）"@)
        } else {
            none()
        },
        None => none(),
    }
}

pub open spec fn over_errors(id: Seq<char>, ids: Seq<Seq<char>>, over: Seq<Seq<char>>) -> Seq<Issue> {
    if over.len() > 0 {
        if over[0] == id {
            one("self_reference"@, "步骤 "@ + id + " 的 iterate.over 引用了自身"@)
        } else if !is_reserved(over[0]) && !ids.contains(over[0]) {
            one("variable_ref_not_found"@, "步骤 "@ + id + " 的 iterate.over 引用了不存在的步骤: "@ + over[0])
        } else {
            none()
        }
    } else {
        none()
    }
}

#[verifier::opaque]
pub open spec fn iterate_errors(id: Seq<char>, ids: Seq<Seq<char>>, cfg: IterateConfig) -> Seq<Issue> {
    as_errors(id, ids, cfg.as_name@) + workers_errors(id, cfg.max_workers) + batch_errors(id, cfg.batch)
        + over_errors(id, ids, cfg.over.pv())
}

#[verifier::opaque]
pub open spec fn retry_errors(id: Seq<char>, r: RetryDef) -> Seq<Issue> {
    (if r.max_attempts == 0 {
        one("invalid_retry_config"@, "步骤 "@ + id + " 的 retry.max_attempts 不能为 0"@)
    } else if r.max_attempts > 100 {
        one("invalid_retry_config"@, "步骤 "@ + id + " 的 retry.max_attempts 超过上限 100: "@ + nat_text(r.max_attempts as nat))
    } else {
        none()
    }) + (if r.delay_ms > 3_600_000 {
        one("invalid_retry_config"@, "步骤 "@ + id + " 的 retry.delay_ms 超过上限 3600000: "@ + nat_text(r.delay_ms as nat))
    } else {
        none()
    })
}

/// The retry settings are refused exactly when there are no attempts,
/// more than 100, or a delay over an hour; every issue then is
/// `invalid_retry_config`.
pub proof fn lemma_retry_bounds(id: Seq<char>, r: RetryDef)
    ensures
        retry_errors(id, r).len() > 0 <==> (r.max_attempts == 0 || r.max_attempts > 100 || r.delay_ms > 3_600_000),
        forall|k: int| 0 <= k < retry_errors(id, r).len() ==> (#[trigger] retry_errors(id, r)[k]).0 == "invalid_retry_config"@,
{
    reveal(retry_errors);
    let a = if r.max_attempts == 0 {
        one("invalid_retry_config"@, "步骤 "@ + id + " 的 retry.max_attempts 不能为 0"@)
    } else if r.max_attempts > 100 {
        one("invalid_retry_config"@, "步骤 "@ + id + " 的 retry.max_attempts 超过上限 100: "@ + nat_text(r.max_attempts as nat))
    } else {
        none()
    };
    let b = if r.delay_ms > 3_600_000 {
        one("invalid_retry_config"@, "步骤 "@ + id + " 的 retry.delay_ms 超过上限 3600000: "@ + nat_text(r.delay_ms as nat))
    } else {
        none()
    };
    assert(retry_errors(id, r) == a + b);
    assert forall|k: int| 0 <= k < (a + b).len() implies (#[trigger] (a + b)[k]).0 == "invalid_retry_config"@ by {
        if k < a.len() {
            assert((a + b)[k] == a[k]);
        } else {
            assert((a + b)[k] == b[k - a.len()]);
        }
    }
}

#[verifier::opaque]
pub open spec fn timeout_errors(id: Seq<char>, t: FloatValue) -> Seq<Issue> {
    if !(t is Finite) || float_le_zero(t) {
        one("invalid_timeout"@, "步骤 "@ + id + " 的 timeout_sec 必须为正数"@)
    } else if float_gt_int(t, 31_536_000) {
        one("invalid_timeout"@, "步骤 "@ + id + " 的 timeout_sec 超过上限（最大 365 天 = 31536000 秒）"@)
    } else {
        none()
    }
}

/// A finite number is at most zero exactly when its mantissa is (its value
/// is the mantissa times a power of two).
pub proof fn lemma_number_le_zero(n: crate::json::JsonNumber)
    ensures
        (crate::number::num_order(n, crate::json::JsonNumber::Int(0)) != crate::text::Order::Greater)
            <==> crate::number::num_mant(n) <= 0,
{
    let e = crate::number::num_exp(n);
    let base = crate::number::min_int(e, 0);
    vstd::arithmetic::power2::lemma_pow2_pos((e - base) as nat);
    vstd::arithmetic::power2::lemma_pow2_pos((0 - base) as nat);
    let p = vstd::arithmetic::power2::pow2((e - base) as nat);
    let m = crate::number::num_mant(n);
    assert(m <= 0 ==> m * p <= 0) by (nonlinear_arith)
        requires
            p > 0;
    assert(m > 0 ==> m * p > 0) by (nonlinear_arith)
        requires
            p > 0;
    assert(crate::number::scaled(0, 0, base) == 0);
}

/// The timeout check: a step's `timeout_sec` is reported exactly when it
/// is not a finite number, is zero or negative, or is more than a year
/// (31536000 seconds); every such finding is `invalid_timeout`.
pub proof fn lemma_timeout_bounds(id: Seq<char>, t: FloatValue)
    ensures
        timeout_errors(id, t).len() > 0 <==> match t {
            FloatValue::Finite(n) => crate::number::num_mant(n) <= 0 || crate::number::num_order(
                n,
                crate::json::JsonNumber::Int(31_536_000),
            ) == crate::text::Order::Greater,
            _ => true,
        },
        forall|k: int| 0 <= k < timeout_errors(id, t).len() ==> (#[trigger] timeout_errors(id, t)[k]).0 == "invalid_timeout"@,
{
    reveal(timeout_errors);
    match t {
        FloatValue::Finite(n) => lemma_number_le_zero(n),
        _ => {},
    }
}

/// `str::to_uppercase`: Unicode upper case, character by character.
pub uninterp spec fn uppercase(s: Seq<char>) -> Seq<char>;

/// `str::to_uppercase` (std): the Unicode upper-case form of the text.
#[verifier::external_body]
pub(crate) fn to_uppercase(s: &str) -> (r: String)
    ensures
        r@ == uppercase(s@),
{
    s.to_uppercase()
}

pub open spec fn filter_operator_ok(op: Seq<char>) -> bool {
    op == "eq"@ || op == "ne"@ || op == "gt"@ || op == "gte"@ || op == "lt"@ || op == "lte"@ || op == "in"@ || op == "contains"@
}

pub open spec fn http_method_ok(m: Seq<char>) -> bool {
    let u = uppercase(m);
    u == "GET"@ || u == "POST"@ || u == "PUT"@ || u == "DELETE"@
}

/// Operator settings outside their allowed values.
#[verifier::opaque]
pub open spec fn op_errors(id: Seq<char>, op: StepOp) -> Seq<Issue> {
    (match op {
        StepOp::Filter(i) => if !filter_operator_ok(i.operator@) {
            one("invalid_operator_config"@, "步骤 "@ + id + " 的 filter.operator 非法: "@ + i.operator@ + "（可选: eq/ne/gt/gte/lt/lte/in/contains）"@)
        } else {
            none()
        },
        StepOp::Sort(i) => if !(i.order@ == "asc"@ || i.order@ == "desc"@) {
            one("invalid_operator_config"@, "步骤 "@ + id + " 的 sort.order 非法: "@ + i.order@ + "（可选: asc/desc）"@)
        } else {
            none()
        },
        _ => none(),
    }) + (match op {
        StepOp::Base64(i) => match i.mode {
            Some(m) => if !(m@ == "encode"@ || m@ == "decode"@) {
                one("invalid_operator_config"@, "步骤 "@ + id + " 的 base64.mode 非法: "@ + m@ + "（可选: encode/decode）"@)
            } else {
                none()
            },
            None => none(),
        },
        StepOp::Http(i) => match i.method {
            Some(m) => if !http_method_ok(m@) {
                one("invalid_operator_config"@, "步骤 "@ + id + " 的 http.method 非法: "@ + m@ + "（可选: GET/POST/PUT/DELETE）"@)
            } else {
                none()
            },
            None => none(),
        },
        StepOp::Llm(i) => (match i.temperature {
            Some(t) => if !(t is Finite) {
                one("invalid_operator_config"@, "步骤 "@ + id + " 的 llm.temperature 必须是有限数值: "@ + nonfinite_text(t))
            } else {
                none()
            },
            None => none(),
        }) + (match i.api_key {
            Some(RefValue::Literal(_)) => one("insecure_api_key"@, "步骤 "@ + id + api_key_message()),
            _ => none(),
        }),
        _ => none(),
    })
}

pub open spec fn api_key_message() -> Seq<char> {
    " 的 llm.api_key 不允许明文配置（会明文进入流水线定义）。请改用引用，如 api_key: \"{env.OPENAI_API_KEY}\"，或经 var/file 步骤输出注入"@
}

/// All findings on step `i`.
pub open spec fn step_errors(def: PipelineDef, i: int) -> Seq<Issue> {
    let ids = step_ids(def);
    let step = def.steps@[i];
    let id = step.id.0@;
    id_errors(id) + reserved_errors(id) + duplicate_errors(ids, i) + after_errors(id, after_view(step))
        + input_ref_errors(step, ids) + match step.iterate {
        Some(c) => iterate_errors(id, ids, c),
        None => none(),
    } + match step.retry {
        Some(r) => retry_errors(id, r),
        None => none(),
    } + match step.timeout_sec {
        Some(t) => timeout_errors(id, t),
        None => none(),
    } + op_errors(id, step.op)
}

fn reserved(s: &str) -> (r: bool)
    ensures
        r == is_reserved(s@),
{
    str_is(s, "slots") || str_is(s, "env")
}

/// Whether `s` is among the first `upto` identifiers.
pub fn among(ids: &Vec<StepId>, upto: usize, s: &str) -> (r: bool)
    requires
        upto <= ids@.len(),
    ensures
        r == ids_view(ids@).subrange(0, upto as int).contains(s@),
{
    let ghost v = ids_view(ids@).subrange(0, upto as int);
    let mut i: usize = 0;
    while i < upto
        invariant
            i <= upto <= ids@.len(),
            v == ids_view(ids@).subrange(0, upto as int),
            forall|k: int| 0 <= k < i ==> v[k] != s@,
        decreases upto - i,
    {
        if str_is(ids[i].0.as_str(), s) {
            assert(v[i as int] == s@);
            return true;
        }
        i = i + 1;
    }
    false
}

/// Whether `s` is one of the identifiers.
pub fn among_all(ids: &Vec<StepId>, s: &str) -> (r: bool)
    ensures
        r == ids_view(ids@).contains(s@),
{
    let r = among(ids, ids.len(), s);
    assert(ids_view(ids@).subrange(0, ids@.len() as int) =~= ids_view(ids@));
    r
}

fn check_id(report: &mut ValidationReport, ids: &Vec<StepId>, i: usize)
    requires
        i < ids@.len(),
    ensures
        errors_view(final(report).errors@) == errors_view(old(report).errors@) + id_errors(ids_view(ids@)[i as int])
            + reserved_errors(ids_view(ids@)[i as int]) + duplicate_errors(ids_view(ids@), i as int),
        final(report).warnings@ == old(report).warnings@,
{
    proof {
        reveal(id_errors);
        reveal(reserved_errors);
        reveal(duplicate_errors);
    }
    let id = ids[i].0.as_str();
    assert(ids_view(ids@)[i as int] == id@);
    let ghost e0 = errors_view(report.errors@);
    if id.unicode_len() == 0 {
        push_error(report, "empty_step_id", crate::text::to_string("步骤 ID 不能为空"));
    } else if !is_valid_step_id(id) {
        push_error(report, "invalid_name_charset", cat2("步骤 ID 含非法字符（仅允许 [A-Za-z0-9_-]）: ", id));
    }
    let ghost e1 = errors_view(report.errors@);
    assert(e1 =~= e0 + id_errors(id@));
    if reserved(id) {
        push_error(report, "reserved_step_id", cat2("步骤 ID 不能使用保留名称: ", id));
    }
    let ghost e2 = errors_view(report.errors@);
    assert(e2 =~= e1 + reserved_errors(id@));
    if id.unicode_len() > 0 && among(ids, i, id) {
        push_error(report, "duplicate_step_id", cat2("步骤 ID 重复: ", id));
    }
    assert(errors_view(report.errors@) =~= e2 + duplicate_errors(ids_view(ids@), i as int));
}

fn check_after(report: &mut ValidationReport, id: &str, after: &Vec<StepId>)
    ensures
        errors_view(final(report).errors@) == errors_view(old(report).errors@) + after_errors(id@, ids_view(after@)),
        final(report).warnings@ == old(report).warnings@,
{
    proof {
        reveal(after_errors);
    }
    let ghost a = ids_view(after@);
    let ghost e0 = errors_view(report.errors@);
    let mut k: usize = 0;
    while k < after.len()
        invariant
            k <= after@.len(),
            a == ids_view(after@),
            report.warnings@ == old(report).warnings@,
            errors_view(report.errors@) == e0 + after_self_errors(id@, a, k as int),
        decreases after@.len() - k,
    {
        assert(a[k as int] == after@[k as int].0@);
        if str_is(after[k].0.as_str(), id) {
            push_error(report, "after_self_ref", cat3("步骤 ", id, " 的 after 不能引用自身"));
        }
        k = k + 1;
    }
    let ghost e1 = errors_view(report.errors@);
    let mut k: usize = 0;
    while k < after.len()
        invariant
            k <= after@.len(),
            a == ids_view(after@),
            report.warnings@ == old(report).warnings@,
            errors_view(report.errors@) == e1 + after_dup_errors(id@, a, k as int),
        decreases after@.len() - k,
    {
        assert(a[k as int] == after@[k as int].0@);
        let dep = after[k].0.as_str();
        if among(after, k, dep) {
            push_error(report, "duplicate_after_entry", cat4("步骤 ", id, " 的 after 中存在重复: ", dep));
        }
        k = k + 1;
    }
    assert(errors_view(report.errors@) =~= e0 + after_errors(id@, a));
}

fn check_input_refs(report: &mut ValidationReport, step: &StepDef, ids: &Vec<StepId>)
    ensures
        errors_view(final(report).errors@) == errors_view(old(report).errors@) + input_ref_errors(*step, ids_view(ids@)),
        final(report).warnings@ == old(report).warnings@,
{
    proof {
        reveal(input_ref_errors);
    }
    let refs = op_refs_exec(&step.op);
    let ghost rv = pairs_view(refs@);
    let ghost e0 = errors_view(report.errors@);
    let id = step.id.0.as_str();
    let ghost asn = as_name_of(*step);
    let mut k: usize = 0;
    while k < refs.len()
        invariant
            k <= refs@.len(),
            rv == pairs_view(refs@),
            rv == op_refs(step.op),
            asn == as_name_of(*step),
            id@ == step.id.0@,
            report.warnings@ == old(report).warnings@,
            errors_view(report.errors@) == e0 + refs_errors(id@, ids_view(ids@), asn, rv, k as int),
        decreases refs@.len() - k,
    {
        let prefix = refs[k].0.as_str();
        assert(rv[k as int].0 == prefix@);
        let skip = match &step.iterate {
            Some(c) => str_is(c.as_name.as_str(), prefix),
            None => false,
        };
        if skip {
        } else if str_is(prefix, id) {
            push_error(report, "self_reference", cat3("步骤 ", id, " 的 inputs 引用了自身"));
        } else if !reserved(prefix) && !among_all(ids, prefix) {
            push_error(report, "variable_ref_not_found", cat4("步骤 ", id, " 中引用了不存在的步骤: ", prefix));
        }
        k = k + 1;
    }
}

fn check_as(report: &mut ValidationReport, id: &str, ids: &Vec<StepId>, a: &str)
    ensures
        errors_view(final(report).errors@) == errors_view(old(report).errors@) + as_errors(id@, ids_view(ids@), a@),
        final(report).warnings@ == old(report).warnings@,
{
    let ghost e0 = errors_view(report.errors@);
    if a.unicode_len() == 0 {
        push_error(report, "invalid_iterate_config", cat3("步骤 ", id, " 的 iterate.as 不能为空"));
    } else {
        if !is_as_name(a) {
            push_error(report, "invalid_iterate_config", cat4("步骤 ", id, " 的 iterate.as 含非法字符（仅允许 [A-Za-z0-9_]）: ", a));
        }
        let ghost e1 = errors_view(report.errors@);
        if reserved(a) {
            push_error(report, "invalid_iterate_config", cat4("步骤 ", id, " 的 iterate.as 不能使用保留前缀: ", a));
        }
        let ghost e2 = errors_view(report.errors@);
        if among_all(ids, a) {
            push_error(report, "invalid_iterate_config", cat4("步骤 ", id, " 的 iterate.as 与步骤 id 冲突: ", a));
        }
        assert(errors_view(report.errors@) =~= e0 + as_errors(id@, ids_view(ids@), a@));
    }
    assert(errors_view(report.errors@) =~= e0 + as_errors(id@, ids_view(ids@), a@));
}

fn check_workers(report: &mut ValidationReport, id: &str, mw: Option<u32>)
    ensures
        errors_view(final(report).errors@) == errors_view(old(report).errors@) + workers_errors(id@, mw),
        final(report).warnings@ == old(report).warnings@,
{
    let ghost e0 = errors_view(report.errors@);
    if mw == Some(0u32) {
        push_error(report, "invalid_iterate_config", cat3("步骤 ", id, " 的 iterate.max_workers 不能为 0（缺省可移除该字段）"));
    }
    let ghost e1 = errors_view(report.errors@);
    if let Some(w) = mw {
        if w > 1024 {
            let t = num_text(w as u64);
            push_error(report, "invalid_iterate_config", cat4("步骤 ", id, " 的 iterate.max_workers 超过上限 1024: ", t.as_str()));
        }
    }
    assert(errors_view(report.errors@) =~= e0 + workers_errors(id@, mw));
}

fn check_batch(report: &mut ValidationReport, id: &str, batch: Option<BatchConfig>)
    ensures
        errors_view(final(report).errors@) == errors_view(old(report).errors@) + batch_errors(id@, batch),
        final(report).warnings@ == old(report).warnings@,
{
    if let Some(b) = batch {
        if b.size == 0 {
            push_error(report, "invalid_iterate_config", cat3("步骤 ", id, " 的 iterate.batch.size 不能为 0（缺省可移除 batch 字段）"));
        }
    }
    assert(errors_view(report.errors@) =~= errors_view(old(report).errors@) + batch_errors(id@, batch));
}

fn check_over(report: &mut ValidationReport, id: &str, ids: &Vec<StepId>, over: &Vec<String>)
    ensures
        errors_view(final(report).errors@) == errors_view(old(report).errors@) + over_errors(id@, ids_view(ids@), strs_view(over@)),
        final(report).warnings@ == old(report).warnings@,
{
    if over.len() > 0 {
        let prefix = over[0].as_str();
        assert(strs_view(over@)[0] == prefix@);
        if str_is(prefix, id) {
            push_error(report, "self_reference", cat3("步骤 ", id, " 的 iterate.over 引用了自身"));
        } else if !reserved(prefix) && !among_all(ids, prefix) {
            push_error(report, "variable_ref_not_found", cat4("步骤 ", id, " 的 iterate.over 引用了不存在的步骤: ", prefix));
        }
    }
    assert(errors_view(report.errors@) =~= errors_view(old(report).errors@) + over_errors(id@, ids_view(ids@), strs_view(over@)));
}

/// Checks a step's iteration settings, when it has some: the `as` name,
/// the number of workers, the batch size and the iteration source. Each
/// finding is appended to the report's errors; warnings stay as they are.
pub fn check_iterate_config(
    cfg: Option<&IterateConfig>,
    step_id: &StepId,
    all_step_ids: &Vec<StepId>,
    report: &mut ValidationReport,
)
    ensures
        errors_view(final(report).errors@) == errors_view(old(report).errors@) + match cfg {
            Some(c) => iterate_errors(step_id.0@, ids_view(all_step_ids@), *c),
            None => none(),
        },
        final(report).warnings@ == old(report).warnings@,
{
    match cfg {
        Some(c) => check_iterate(report, step_id.0.as_str(), all_step_ids, c),
        None => {
            assert(errors_view(report.errors@) =~= errors_view(report.errors@) + none());
        },
    }
}

/// Some finding among `issues` has the code `code`.
pub open spec fn has_code(issues: Seq<Issue>, code: Seq<char>) -> bool {
    exists|k: int| 0 <= k < issues.len() && (#[trigger] issues[k]).0 == code
}

/// A step's iteration settings are reported as `invalid_iterate_config`
/// exactly when the `as` name is empty, holds a character outside
/// `[A-Za-z0-9_]`, is `slots` or `env`, or is a step's identifier, or when
/// `max_workers` is 0 or above 1024, or the batch size is 0.
#[verifier::rlimit(40)]
pub proof fn lemma_iterate_config_rejected(id: Seq<char>, ids: Seq<Seq<char>>, c: IterateConfig)
    ensures
        has_code(iterate_errors(id, ids, c), "invalid_iterate_config"@) <==> (c.as_name@.len() == 0 || !all_as_chars(
            c.as_name@,
        ) || is_reserved(c.as_name@) || ids.contains(c.as_name@) || c.max_workers == Some(0u32) || (c.max_workers matches Some(
            w,
        ) && w > 1024) || (c.batch matches Some(b) && b.size == 0)),
{
    reveal(iterate_errors);
    reveal_strlit("invalid_iterate_config");
    reveal_strlit("self_reference");
    reveal_strlit("variable_ref_not_found");
    let code = "invalid_iterate_config"@;
    let a = as_errors(id, ids, c.as_name@);
    let wk = workers_errors(id, c.max_workers);
    let b = batch_errors(id, c.batch);
    let o = over_errors(id, ids, c.over.pv());
    let all = iterate_errors(id, ids, c);
    assert(all == a + wk + b + o);
    assert(!has_code(o, code)) by {
        assert(code[0] != "self_reference"@[0]);
        assert(code[0] != "variable_ref_not_found"@[0]);
    }
    assert(has_code(all, code) <==> (has_code(a, code) || has_code(wk, code) || has_code(b, code))) by {
        if has_code(all, code) {
            let k = choose|k: int| 0 <= k < all.len() && (#[trigger] all[k]).0 == code;
            if k < a.len() {
                assert(a[k] == all[k]);
            } else if k < a.len() + wk.len() {
                assert(wk[k - a.len()] == all[k]);
            } else if k < a.len() + wk.len() + b.len() {
                assert(b[k - a.len() - wk.len()] == all[k]);
            } else {
                assert(o[k - a.len() - wk.len() - b.len()] == all[k]);
            }
        }
        if has_code(a, code) {
            let k = choose|k: int| 0 <= k < a.len() && (#[trigger] a[k]).0 == code;
            assert(all[k] == a[k]);
        }
        if has_code(wk, code) {
            let k = choose|k: int| 0 <= k < wk.len() && (#[trigger] wk[k]).0 == code;
            assert(all[a.len() + k] == wk[k]);
        }
        if has_code(b, code) {
            let k = choose|k: int| 0 <= k < b.len() && (#[trigger] b[k]).0 == code;
            assert(all[a.len() + wk.len() + k] == b[k]);
        }
    }
    let s = c.as_name@;
    if s.len() > 0 {
        let p1 = if !all_as_chars(s) { one(code, "步骤 "@ + id + " 的 iterate.as 含非法字符（仅允许 [A-Za-z0-9_]）: "@ + s) } else { none() };
        let p2 = if is_reserved(s) { one(code, "步骤 "@ + id + " 的 iterate.as 不能使用保留前缀: "@ + s) } else { none() };
        let p3 = if ids.contains(s) { one(code, "步骤 "@ + id + " 的 iterate.as 与步骤 id 冲突: "@ + s) } else { none() };
        assert(a == p1 + p2 + p3);
        if !all_as_chars(s) {
            assert(a[0].0 == code);
        } else if is_reserved(s) {
            assert(a[0].0 == code);
        } else if ids.contains(s) {
            assert(a[0].0 == code);
        } else {
            assert(a.len() == 0);
        }
    } else {
        assert(a[0].0 == code);
    }
    assert(wk.len() > 0 ==> wk[0].0 == code);
    assert(wk.len() > 0 <==> (c.max_workers == Some(0u32) || (c.max_workers matches Some(w) && w > 1024)));
    if has_code(wk, code) {
        assert(wk.len() > 0);
    }
    if wk.len() > 0 {
        assert(wk[0].0 == code);
    }
    if b.len() > 0 {
        assert(b[0].0 == code);
    }
}

fn check_iterate(report: &mut ValidationReport, id: &str, ids: &Vec<StepId>, cfg: &IterateConfig)
    ensures
        errors_view(final(report).errors@) == errors_view(old(report).errors@) + iterate_errors(id@, ids_view(ids@), *cfg),
        final(report).warnings@ == old(report).warnings@,
{
    proof {
        reveal(iterate_errors);
    }
    let ghost e0 = errors_view(report.errors@);
    check_as(report, id, ids, cfg.as_name.as_str());
    check_workers(report, id, cfg.max_workers);
    check_batch(report, id, cfg.batch);
    check_over(report, id, ids, &cfg.over.parts);
    assert(errors_view(report.errors@) =~= e0 + iterate_errors(id@, ids_view(ids@), *cfg));
}

fn check_retry(report: &mut ValidationReport, id: &str, r: RetryDef)
    ensures
        errors_view(final(report).errors@) == errors_view(old(report).errors@) + retry_errors(id@, r),
        final(report).warnings@ == old(report).warnings@,
{
    proof {
        reveal(retry_errors);
    }
    let ghost e0 = errors_view(report.errors@);
    if r.max_attempts == 0 {
        push_error(report, "invalid_retry_config", cat3("步骤 ", id, " 的 retry.max_attempts 不能为 0"));
    } else if r.max_attempts > 100 {
        let t = num_text(r.max_attempts as u64);
        push_error(report, "invalid_retry_config", cat4("步骤 ", id, " 的 retry.max_attempts 超过上限 100: ", t.as_str()));
    }
    let ghost e1 = errors_view(report.errors@);
    if r.delay_ms > 3_600_000 {
        let t = num_text(r.delay_ms);
        push_error(report, "invalid_retry_config", cat4("步骤 ", id, " 的 retry.delay_ms 超过上限 3600000: ", t.as_str()));
    }
    assert(errors_view(report.errors@) =~= e0 + retry_errors(id@, r));
}

fn check_timeout(report: &mut ValidationReport, id: &str, t: &FloatValue)
    ensures
        errors_view(final(report).errors@) == errors_view(old(report).errors@) + timeout_errors(id@, *t),
        final(report).warnings@ == old(report).warnings@,
{
    proof {
        reveal(timeout_errors);
    }
    if !t.is_finite() || t.le_zero() {
        push_error(report, "invalid_timeout", cat3("步骤 ", id, " 的 timeout_sec 必须为正数"));
    } else if t.gt_int(31_536_000) {
        push_error(report, "invalid_timeout", cat3("步骤 ", id, " 的 timeout_sec 超过上限（最大 365 天 = 31536000 秒）"));
    }
    assert(errors_view(report.errors@) =~= errors_view(old(report).errors@) + timeout_errors(id@, *t));
}

fn nonfinite_str(t: &FloatValue) -> (r: &'static str)
    ensures
        r@ == nonfinite_text(*t),
{
    proof {
        reveal_strlit("inf");
        reveal_strlit("-inf");
        reveal_strlit("NaN");
    }
    match t {
        FloatValue::Infinity => "inf",
        FloatValue::NegInfinity => "-inf",
        _ => "NaN",
    }
}

fn check_op(report: &mut ValidationReport, id: &str, op: &StepOp)
    ensures
        errors_view(final(report).errors@) == errors_view(old(report).errors@) + op_errors(id@, *op),
        final(report).warnings@ == old(report).warnings@,
{
    proof {
        reveal(op_errors);
    }
    let ghost e0 = errors_view(report.errors@);
    match op {
        StepOp::Filter(i) => {
            let o = i.operator.as_str();
            if !(str_is(o, "eq") || str_is(o, "ne") || str_is(o, "gt") || str_is(o, "gte") || str_is(o, "lt")
                || str_is(o, "lte") || str_is(o, "in") || str_is(o, "contains")) {
                push_error(report, "invalid_operator_config", cat5("步骤 ", id, " 的 filter.operator 非法: ", o, "（可选: eq/ne/gt/gte/lt/lte/in/contains）"));
            }
        },
        StepOp::Sort(i) => {
            let o = i.order.as_str();
            if !(str_is(o, "asc") || str_is(o, "desc")) {
                push_error(report, "invalid_operator_config", cat5("步骤 ", id, " 的 sort.order 非法: ", o, "（可选: asc/desc）"));
            }
        },
        _ => {},
    }
    let ghost e1 = errors_view(report.errors@);
    match op {
        StepOp::Base64(i) => {
            if let Some(m) = &i.mode {
                let m = m.as_str();
                if !(str_is(m, "encode") || str_is(m, "decode")) {
                    push_error(report, "invalid_operator_config", cat5("步骤 ", id, " 的 base64.mode 非法: ", m, "（可选: encode/decode）"));
                }
            }
        },
        StepOp::Http(i) => {
            if let Some(m) = &i.method {
                let m = m.as_str();
                let u = to_uppercase(m);
                let u = u.as_str();
                if !(str_is(u, "GET") || str_is(u, "POST") || str_is(u, "PUT") || str_is(u, "DELETE")) {
                    push_error(report, "invalid_operator_config", cat5("步骤 ", id, " 的 http.method 非法: ", m, "（可选: GET/POST/PUT/DELETE）"));
                }
            }
        },
        StepOp::Llm(i) => {
            if let Some(t) = &i.temperature {
                if !t.is_finite() {
                    push_error(report, "invalid_operator_config", cat4("步骤 ", id, " 的 llm.temperature 必须是有限数值: ", nonfinite_str(t)));
                }
            }
            let ghost e2 = errors_view(report.errors@);
            if let Some(RefValue::Literal(_)) = &i.api_key {
                push_error(report, "insecure_api_key", cat3("步骤 ", id, " 的 llm.api_key 不允许明文配置（会明文进入流水线定义）。请改用引用，如 api_key: \"{env.OPENAI_API_KEY}\"，或经 var/file 步骤输出注入"));
            }
            assert(errors_view(report.errors@) =~= e1 + (match i.temperature {
                Some(t) => if !(t is Finite) {
                    one("invalid_operator_config"@, "步骤 "@ + id@ + " 的 llm.temperature 必须是有限数值: "@ + nonfinite_text(t))
                } else {
                    none()
                },
                None => none(),
            }) + (match i.api_key {
                Some(RefValue::Literal(_)) => one("insecure_api_key"@, "步骤 "@ + id@ + api_key_message()),
                _ => none(),
            }));
        },
        _ => {},
    }
    assert(errors_view(report.errors@) =~= e0 + op_errors(id@, *op));
}

/// Floats held by a step are well formed.
#[verifier::rlimit(60)]
fn check_step(report: &mut ValidationReport, def: &PipelineDef, ids: &Vec<StepId>, i: usize)
    requires
        i < def.steps@.len(),
        ids_view(ids@) == step_ids(*def),
    ensures
        errors_view(final(report).errors@) == errors_view(old(report).errors@) + step_errors(*def, i as int),
        final(report).warnings@ == old(report).warnings@,
{
    let ghost e0 = errors_view(report.errors@);
    let step = &def.steps[i];
    let id = step.id.0.as_str();
    assert(ids_view(ids@).len() == ids@.len());
    assert(step_ids(*def)[i as int] == id@);
    assert(ids_view(ids@)[i as int] == id@);
    check_id(report, ids, i);
    if let Some(a) = &step.after {
        check_after(report, id, a);
    } else {
        proof {
            reveal(after_errors);
        }
        assert(after_errors(id@, after_view(*step)) =~= none());
    }
    check_input_refs(report, step, ids);
    let ghost e3 = errors_view(report.errors@);
    if let Some(c) = &step.iterate {
        check_iterate(report, id, ids, c);
    }
    let ghost e4 = errors_view(report.errors@);
    if let Some(r) = step.retry {
        check_retry(report, id, r);
    }
    let ghost e5 = errors_view(report.errors@);
    if let Some(t) = &step.timeout_sec {
        check_timeout(report, id, t);
    }
    let ghost e6 = errors_view(report.errors@);
    check_op(report, id, &step.op);
    assert(errors_view(report.errors@) =~= e0 + step_errors(*def, i as int));
}

// ---------------------------------------------------------------------------
// All steps, slots, references
// ---------------------------------------------------------------------------

pub open spec fn steps_errors(def: PipelineDef, n: int) -> Seq<Issue>
    decreases n,
{
    if n <= 0 {
        none()
    } else {
        steps_errors(def, n - 1) + step_errors(def, n - 1)
    }
}

pub open spec fn slot_names(def: PipelineDef) -> Seq<Seq<char>> {
    Seq::new(def.slots@.len(), |j: int| def.slots@[j].name@)
}

#[verifier::opaque]
pub open spec fn slot_errors(names: Seq<Seq<char>>, j: int) -> Seq<Issue> {
    let name = names[j];
    (if name.len() == 0 {
        one("empty_slot_name"@, "slot 名称不能为空"@)
    } else if !all_id_chars(name) {
        one("invalid_name_charset"@, "slot 名称含非法字符（仅允许 [A-Za-z0-9_-]）: "@ + name)
    } else {
        none()
    }) + (if name.len() > 0 && names.subrange(0, j).contains(name) {
        one("duplicate_slot_name"@, "slot 名称重复: "@ + name)
    } else {
        none()
    })
}

pub open spec fn slots_errors(names: Seq<Seq<char>>, n: int) -> Seq<Issue>
    decreases n,
{
    if n <= 0 {
        none()
    } else {
        slots_errors(names, n - 1) + slot_errors(names, n - 1)
    }
}

/// The position of the first `.` at or after `i` (the length if none).
pub open spec fn first_dot(s: Seq<char>, i: int) -> int
    decreases s.len() - i,
{
    if i >= s.len() || i < 0 {
        s.len() as int
    } else if s[i] == '.' {
        i
    } else {
        first_dot(s, i + 1)
    }
}

/// The text before the first `.` (`s.split('.').next()`).
pub open spec fn first_piece(s: Seq<char>) -> Seq<char> {
    s.subrange(0, first_dot(s, 0))
}

proof fn lemma_first_dot(s: Seq<char>, i: int)
    requires
        0 <= i <= s.len(),
    ensures
        i <= first_dot(s, i) <= s.len(),
        forall|k: int| i <= k < first_dot(s, i) ==> s[k] != '.',
        first_dot(s, i) < s.len() ==> s[first_dot(s, i)] == '.',
    decreases s.len() - i,
{
    if i < s.len() && s[i] != '.' {
        lemma_first_dot(s, i + 1);
    }
}

/// The text before the first `.`.
pub fn first_piece_exec(s: &str) -> (r: String)
    ensures
        r@ == first_piece(s@),
{
    let cs = chars_of(s);
    let mut i: usize = 0;
    proof {
        lemma_first_dot(s@, 0);
    }
    while i < cs.len() && cs[i] != '.'
        invariant
            i <= cs@.len(),
            cs@ == s@,
            i <= first_dot(s@, 0),
            forall|k: int| 0 <= k < first_dot(s@, 0) ==> s@[k] != '.',
            first_dot(s@, 0) < s@.len() ==> s@[first_dot(s@, 0)] == '.',
            first_dot(s@, 0) <= s@.len(),
        decreases cs@.len() - i,
    {
        i = i + 1;
    }
    crate::text::string_from_range(&cs, 0, i)
}

/// A slot reference's name checked against the declared slots.
pub open spec fn slot_ref_error(names: Seq<Seq<char>>, rest: Seq<char>, ctx: Seq<char>) -> Seq<Issue> {
    let name = first_piece(rest);
    if name.len() > 0 && !names.contains(name) {
        one("slot_not_found"@, ctx + " 引用了未声明的 slot: "@ + name)
    } else {
        none()
    }
}

/// Slot references among the first `n` references.
pub open spec fn slot_refs_errors(names: Seq<Seq<char>>, refs: Seq<(Seq<char>, Seq<char>)>, ctx: Seq<char>, n: int) -> Seq<Issue>
    decreases n,
{
    if n <= 0 {
        none()
    } else {
        slot_refs_errors(names, refs, ctx, n - 1) + if refs[n - 1].0 == "slots"@ {
            slot_ref_error(names, refs[n - 1].1, ctx)
        } else {
            none()
        }
    }
}

pub open spec fn template_refs(ps: Seq<TPartV>) -> Seq<(Seq<char>, Seq<char>)>
    decreases ps.len(),
{
    if ps.len() == 0 {
        Seq::empty()
    } else {
        template_refs(ps.drop_last()) + match ps.last() {
            TPartV::Ref(p) => if p.len() > 0 {
                seq![ref_pair(p)]
            } else {
                Seq::empty()
            },
            TPartV::Lit(_) => Seq::empty(),
        }
    }
}

/// The references of the pipeline's output.
pub open spec fn output_refs(out: RefValue) -> Seq<(Seq<char>, Seq<char>)> {
    match out {
        RefValue::Ref(p) => if p.pv().len() > 0 {
            seq![ref_pair(p.pv())]
        } else {
            Seq::empty()
        },
        RefValue::Literal(v) => json_refs(jv(v)),
        RefValue::Template(ps) => template_refs(parts_view(ps@)),
    }
}

#[verifier::opaque]
pub open spec fn step_slot_errors(names: Seq<Seq<char>>, step: StepDef) -> Seq<Issue> {
    let refs = op_refs(step.op);
    let id = step.id.0@;
    slot_refs_errors(names, refs, "步骤 "@ + id, refs.len() as int) + match step.iterate {
        Some(c) => {
            let over = c.over.pv();
            if over.len() > 0 && over[0] == "slots"@ {
                slot_ref_error(names, ref_pair(over).1, "步骤 "@ + id + " 的 iterate.over"@)
            } else {
                none()
            }
        },
        None => none(),
    }
}

pub open spec fn steps_slot_errors(def: PipelineDef, n: int) -> Seq<Issue>
    decreases n,
{
    if n <= 0 {
        none()
    } else {
        steps_slot_errors(def, n - 1) + step_slot_errors(slot_names(def), def.steps@[n - 1])
    }
}

pub open spec fn output_slot_errors(def: PipelineDef) -> Seq<Issue> {
    let refs = output_refs(def.output);
    slot_refs_errors(slot_names(def), refs, "output"@, refs.len() as int)
}

fn push_slot_refs_errors(
    report: &mut ValidationReport,
    names: &Vec<String>,
    refs: &Vec<(String, String)>,
    ctx: &str,
)
    ensures
        errors_view(final(report).errors@) == errors_view(old(report).errors@) + slot_refs_errors(
            strs_view(names@),
            pairs_view(refs@),
            ctx@,
            refs@.len() as int,
        ),
        final(report).warnings@ == old(report).warnings@,
{
    let ghost rv = pairs_view(refs@);
    let mut k: usize = 0;
    while k < refs.len()
        invariant
            k <= refs@.len(),
            rv == pairs_view(refs@),
            report.warnings@ == old(report).warnings@,
            errors_view(report.errors@) == errors_view(old(report).errors@) + slot_refs_errors(
                strs_view(names@),
                rv,
                ctx@,
                k as int,
            ),
        decreases refs@.len() - k,
    {
        assert(rv[k as int] == (refs@[k as int].0@, refs@[k as int].1@));
        if str_is(refs[k].0.as_str(), "slots") {
            push_slot_ref_error(report, names, refs[k].1.as_str(), ctx);
        }
        k = k + 1;
    }
}

fn string_among(v: &Vec<String>, s: &str) -> (r: bool)
    ensures
        r == strs_view(v@).contains(s@),
{
    let mut i: usize = 0;
    while i < v.len()
        invariant
            i <= v@.len(),
            forall|k: int| 0 <= k < i ==> strs_view(v@)[k] != s@,
        decreases v@.len() - i,
    {
        if str_is(v[i].as_str(), s) {
            assert(strs_view(v@)[i as int] == s@);
            return true;
        }
        i = i + 1;
    }
    false
}

fn push_slot_ref_error(report: &mut ValidationReport, names: &Vec<String>, rest: &str, ctx: &str)
    ensures
        errors_view(final(report).errors@) == errors_view(old(report).errors@) + slot_ref_error(strs_view(names@), rest@, ctx@),
        final(report).warnings@ == old(report).warnings@,
{
    let name = first_piece_exec(rest);
    let name = name.as_str();
    if name.unicode_len() > 0 && !string_among(names, name) {
        push_error(report, "slot_not_found", cat3(ctx, " 引用了未声明的 slot: ", name));
    }
    assert(errors_view(report.errors@) =~= errors_view(old(report).errors@) + slot_ref_error(strs_view(names@), rest@, ctx@));
}

/// The references of the pipeline's output.
pub fn output_refs_exec(out: &RefValue) -> (r: Vec<(String, String)>)
    ensures
        pairs_view(r@) == output_refs(*out),
{
    let mut r: Vec<(String, String)> = Vec::new();
    match out {
        RefValue::Ref(p) => {
            if p.parts.len() > 0 {
                let pr = ref_pair_exec(&p.parts);
                r.push(pr);
            }
            assert(pairs_view(r@) =~= output_refs(*out));
        },
        RefValue::Literal(v) => {
            collect_json_refs(v, &mut r);
            assert(pairs_view(r@) =~= output_refs(*out));
        },
        RefValue::Template(ps) => {
            let ghost pv = parts_view(ps@);
            let mut k: usize = 0;
            while k < ps.len()
                invariant
                    k <= ps@.len(),
                    pv == parts_view(ps@),
                    pairs_view(r@) == template_refs(pv.subrange(0, k as int)),
                decreases ps@.len() - k,
            {
                match &ps[k] {
                    TemplatePart::Ref(p) => {
                        if p.parts.len() > 0 {
                            let pr = ref_pair_exec(&p.parts);
                            r.push(pr);
                        }
                    },
                    TemplatePart::Lit(_) => {},
                }
                proof {
                    let w = pv.subrange(0, k + 1);
                    assert(w.drop_last() =~= pv.subrange(0, k as int));
                    assert(pairs_view(r@) =~= template_refs(w));
                }
                k = k + 1;
            }
            assert(pv.subrange(0, ps@.len() as int) =~= pv);
        },
    }
    r
}

fn check_step_slots(report: &mut ValidationReport, names: &Vec<String>, step: &StepDef)
    ensures
        errors_view(final(report).errors@) == errors_view(old(report).errors@) + step_slot_errors(strs_view(names@), *step),
        final(report).warnings@ == old(report).warnings@,
{
    proof {
        reveal(step_slot_errors);
    }
    let ghost e0 = errors_view(report.errors@);
    let refs = op_refs_exec(&step.op);
    let id = step.id.0.as_str();
    let ctx = cat2("步骤 ", id);
    push_slot_refs_errors(report, names, &refs, ctx.as_str());
    let ghost e1 = errors_view(report.errors@);
    if let Some(c) = &step.iterate {
        let over = &c.over.parts;
        if over.len() > 0 && str_is(over[0].as_str(), "slots") {
            assert(strs_view(over@)[0] == over@[0]@);
            let pr = ref_pair_exec(over);
            let ctx2 = cat3("步骤 ", id, " 的 iterate.over");
            push_slot_ref_error(report, names, pr.1.as_str(), ctx2.as_str());
        }
    }
    assert(errors_view(report.errors@) =~= e0 + step_slot_errors(strs_view(names@), *step));
}

// ---------------------------------------------------------------------------
// `after` and output references
// ---------------------------------------------------------------------------

pub open spec fn after_ref_errors_upto(id: Seq<char>, ids: Seq<Seq<char>>, after: Seq<Seq<char>>, n: int) -> Seq<Issue>
    decreases n,
{
    if n <= 0 {
        none()
    } else {
        after_ref_errors_upto(id, ids, after, n - 1) + if after[n - 1] != id && !ids.contains(after[n - 1]) {
            one("after_ref_not_found"@, "步骤 "@ + id + " 的 after 引用了不存在的步骤: "@ + after[n - 1])
        } else {
            none()
        }
    }
}

pub open spec fn steps_after_ref_errors(def: PipelineDef, n: int) -> Seq<Issue>
    decreases n,
{
    if n <= 0 {
        none()
    } else {
        let step = def.steps@[n - 1];
        let a = after_view(step);
        steps_after_ref_errors(def, n - 1) + after_ref_errors_upto(step.id.0@, step_ids(def), a, a.len() as int)
    }
}

pub open spec fn output_ref_errors_upto(ids: Seq<Seq<char>>, refs: Seq<(Seq<char>, Seq<char>)>, n: int) -> Seq<Issue>
    decreases n,
{
    if n <= 0 {
        none()
    } else {
        output_ref_errors_upto(ids, refs, n - 1) + if !is_reserved(refs[n - 1].0) && !ids.contains(refs[n - 1].0) {
            one("output_ref_not_found"@, "output 引用了不存在的步骤: "@ + refs[n - 1].0)
        } else {
            none()
        }
    }
}

/// Output references to unknown steps (checked only when there are steps).
pub open spec fn output_ref_errors(def: PipelineDef) -> Seq<Issue> {
    let refs = output_refs(def.output);
    if def.steps@.len() == 0 {
        none()
    } else {
        output_ref_errors_upto(step_ids(def), refs, refs.len() as int)
    }
}

fn check_after_refs(report: &mut ValidationReport, id: &str, ids: &Vec<StepId>, after: &Vec<StepId>)
    ensures
        errors_view(final(report).errors@) == errors_view(old(report).errors@) + after_ref_errors_upto(
            id@,
            ids_view(ids@),
            ids_view(after@),
            after@.len() as int,
        ),
        final(report).warnings@ == old(report).warnings@,
{
    let mut k: usize = 0;
    while k < after.len()
        invariant
            k <= after@.len(),
            report.warnings@ == old(report).warnings@,
            errors_view(report.errors@) == errors_view(old(report).errors@) + after_ref_errors_upto(
                id@,
                ids_view(ids@),
                ids_view(after@),
                k as int,
            ),
        decreases after@.len() - k,
    {
        let dep = after[k].0.as_str();
        assert(ids_view(after@)[k as int] == dep@);
        if !str_is(dep, id) && !among_all(ids, dep) {
            push_error(report, "after_ref_not_found", cat4("步骤 ", id, " 的 after 引用了不存在的步骤: ", dep));
        }
        k = k + 1;
    }
}

fn check_output_refs(report: &mut ValidationReport, ids: &Vec<StepId>, refs: &Vec<(String, String)>)
    ensures
        errors_view(final(report).errors@) == errors_view(old(report).errors@) + output_ref_errors_upto(
            ids_view(ids@),
            pairs_view(refs@),
            refs@.len() as int,
        ),
        final(report).warnings@ == old(report).warnings@,
{
    let mut k: usize = 0;
    while k < refs.len()
        invariant
            k <= refs@.len(),
            report.warnings@ == old(report).warnings@,
            errors_view(report.errors@) == errors_view(old(report).errors@) + output_ref_errors_upto(
                ids_view(ids@),
                pairs_view(refs@),
                k as int,
            ),
        decreases refs@.len() - k,
    {
        let p = refs[k].0.as_str();
        assert(pairs_view(refs@)[k as int].0 == p@);
        if !reserved(p) && !among_all(ids, p) {
            push_error(report, "output_ref_not_found", cat2("output 引用了不存在的步骤: ", p));
        }
        k = k + 1;
    }
}

// ---------------------------------------------------------------------------
// Slot schemas and JS syntax (their checks run outside; findings come in)
// ---------------------------------------------------------------------------

pub open spec fn opt_strs_view(v: Seq<Option<String>>) -> Seq<Option<Seq<char>>> {
    v.map_values(|o: Option<String>| match o {
        Some(s) => Some(s@),
        None => None,
    })
}

pub open spec fn schema_errors_upto(def: PipelineDef, res: Seq<Option<Seq<char>>>, n: int) -> Seq<Issue>
    decreases n,
{
    if n <= 0 {
        none()
    } else {
        schema_errors_upto(def, res, n - 1) + match res[n - 1] {
            Some(e) => one("invalid_json_schema"@, "slot "@ + def.slots@[n - 1].name@ + " 的 schema 非法: "@ + e),
            None => none(),
        }
    }
}

/// The outcome of checking a JS step's code for syntax errors.
#[derive(Debug, Clone)]
pub enum JsCheck {
    /// No syntax error found (runtime errors and interrupts are let pass).
    Passed,
    /// The JS runtime could not be created.
    RuntimeFailed,
    /// The JS context could not be created.
    ContextFailed,
    /// A syntax error, with its `name: message` text.
    SyntaxError(String),
}

/// The JS source of a step, if it is a JS step whose code is a literal string.
pub open spec fn js_source(step: StepDef) -> Option<Seq<char>> {
    match step.op {
        StepOp::Js(i) => match i.code {
            RefValue::Literal(Json::Str(src)) => Some(src@),
            _ => None,
        },
        _ => None,
    }
}

pub open spec fn js_errors_upto(def: PipelineDef, js: Seq<JsCheck>, n: int) -> Seq<Issue>
    decreases n,
{
    if n <= 0 {
        none()
    } else {
        let id = def.steps@[n - 1].id.0@;
        js_errors_upto(def, js, n - 1) + if js_source(def.steps@[n - 1]) is Some {
            match js[n - 1] {
                JsCheck::RuntimeFailed => one("js_runtime_error"@, "步骤/规则 "@ + id + " 的 JS 运行时创建失败"@),
                JsCheck::ContextFailed => one("js_runtime_error"@, "步骤/规则 "@ + id + " 的 JS 上下文创建失败"@),
                JsCheck::SyntaxError(m) => one("js_syntax_error"@, "步骤/规则 "@ + id + " 的 JS 代码语法错误: "@ + m@),
                JsCheck::Passed => none(),
            }
        } else {
            none()
        }
    }
}

/// The JS source of a step, if it has one to check.
pub fn js_source_exec(step: &StepDef) -> (r: Option<&str>)
    ensures
        match js_source(*step) {
            Some(src) => r matches Some(x) && x@ == src,
            None => r is None,
        },
{
    match &step.op {
        StepOp::Js(i) => match &i.code {
            RefValue::Literal(Json::Str(src)) => Some(src.as_str()),
            _ => None,
        },
        _ => None,
    }
}

// ---------------------------------------------------------------------------
// Warnings
// ---------------------------------------------------------------------------

/// Slot names that the references use (the text before the first `.`).
pub open spec fn refs_slot_names(refs: Seq<(Seq<char>, Seq<char>)>, n: int) -> Seq<Seq<char>>
    decreases n,
{
    if n <= 0 {
        Seq::empty()
    } else {
        refs_slot_names(refs, n - 1) + if refs[n - 1].0 == "slots"@ && first_piece(refs[n - 1].1).len() > 0 {
            seq![first_piece(refs[n - 1].1)]
        } else {
            Seq::empty()
        }
    }
}

pub open spec fn steps_slot_names(def: PipelineDef, n: int) -> Seq<Seq<char>>
    decreases n,
{
    if n <= 0 {
        Seq::empty()
    } else {
        let refs = op_refs(def.steps@[n - 1].op);
        steps_slot_names(def, n - 1) + refs_slot_names(refs, refs.len() as int)
    }
}

/// The slots the steps' inputs and the output use.
pub open spec fn used_slot_names(def: PipelineDef) -> Seq<Seq<char>> {
    let orefs = output_refs(def.output);
    steps_slot_names(def, def.steps@.len() as int) + refs_slot_names(orefs, orefs.len() as int)
}

pub open spec fn unused_slot_warnings(def: PipelineDef, n: int) -> Seq<Issue>
    decreases n,
{
    if n <= 0 {
        none()
    } else {
        let name = def.slots@[n - 1].name@;
        unused_slot_warnings(def, n - 1) + if !used_slot_names(def).contains(name) {
            one("unused_slot"@, "slot "@ + name + " 已声明但未在任何步骤中使用"@)
        } else {
            none()
        }
    }
}

/// First segments of references, other than `slots` and `env`.
pub open spec fn step_prefixes(refs: Seq<(Seq<char>, Seq<char>)>, n: int) -> Seq<Seq<char>>
    decreases n,
{
    if n <= 0 {
        Seq::empty()
    } else {
        step_prefixes(refs, n - 1) + if !is_reserved(refs[n - 1].0) {
            seq![refs[n - 1].0]
        } else {
            Seq::empty()
        }
    }
}

/// All first segments of references.
pub open spec fn all_prefixes(refs: Seq<(Seq<char>, Seq<char>)>) -> Seq<Seq<char>> {
    refs.map_values(|r: (Seq<char>, Seq<char>)| r.0)
}

pub open spec fn steps_referenced(def: PipelineDef, n: int) -> Seq<Seq<char>>
    decreases n,
{
    if n <= 0 {
        Seq::empty()
    } else {
        let step = def.steps@[n - 1];
        let refs = op_refs(step.op);
        steps_referenced(def, n - 1) + step_prefixes(refs, refs.len() as int) + after_view(step)
    }
}

/// Names that some input, `after` list or the output refers to.
pub open spec fn referenced_names(def: PipelineDef) -> Seq<Seq<char>> {
    steps_referenced(def, def.steps@.len() as int) + all_prefixes(output_refs(def.output))
}

pub open spec fn orphan_warnings(def: PipelineDef, n: int) -> Seq<Issue>
    decreases n,
{
    if n <= 0 {
        none()
    } else {
        let id = def.steps@[n - 1].id.0@;
        orphan_warnings(def, n - 1) + if !referenced_names(def).contains(id) {
            one("orphan_step"@, "步骤 "@ + id + " 未被任何下游步骤或 output 引用"@)
        } else {
            none()
        }
    }
}

/// The step's iteration source, when it is another step.
pub open spec fn over_dep(step: StepDef) -> Seq<Seq<char>> {
    match step.iterate {
        Some(c) => if c.over.pv().len() > 0 && !is_reserved(c.over.pv()[0]) {
            seq![c.over.pv()[0]]
        } else {
            Seq::empty()
        },
        None => Seq::empty(),
    }
}

/// What a step depends on: `after`, input references, iteration source.
pub open spec fn step_dep_names(step: StepDef) -> Seq<Seq<char>> {
    let refs = op_refs(step.op);
    after_view(step) + step_prefixes(refs, refs.len() as int) + over_dep(step)
}

/// Some step with identifier `id` depends on something.
pub open spec fn id_has_deps(def: PipelineDef, id: Seq<char>) -> bool {
    exists|i: int| 0 <= i < def.steps@.len() && def.steps@[i].id.0@ == id && #[trigger] step_dep_names(def.steps@[i]).len() > 0
}

pub open spec fn upstream_warnings(def: PipelineDef, n: int) -> Seq<Issue>
    decreases n,
{
    if n <= 0 {
        none()
    } else {
        let id = def.steps@[n - 1].id.0@;
        upstream_warnings(def, n - 1) + if !id_has_deps(def, id) {
            one("no_upstream_deps"@, "步骤 "@ + id + " 没有上游依赖（无 after / inputs 引用 / iterate.over），将作为 DAG 根节点在 layer 0 并行执行"@)
        } else {
            none()
        }
    }
}

fn refs_slot_names_exec(refs: &Vec<(String, String)>, out: &mut Vec<String>)
    ensures
        strs_view(final(out)@) == strs_view(old(out)@) + refs_slot_names(pairs_view(refs@), refs@.len() as int),
{
    let mut k: usize = 0;
    while k < refs.len()
        invariant
            k <= refs@.len(),
            strs_view(out@) == strs_view(old(out)@) + refs_slot_names(pairs_view(refs@), k as int),
        decreases refs@.len() - k,
    {
        assert(pairs_view(refs@)[k as int] == (refs@[k as int].0@, refs@[k as int].1@));
        let ghost before = out@;
        if str_is(refs[k].0.as_str(), "slots") {
            let name = first_piece_exec(refs[k].1.as_str());
            if name.unicode_len() > 0 {
                push_string(out, name.as_str());
            }
        }
        assert(strs_view(out@) =~= strs_view(old(out)@) + refs_slot_names(pairs_view(refs@), k + 1));
        k = k + 1;
    }
}

fn step_prefixes_exec(refs: &Vec<(String, String)>, out: &mut Vec<String>)
    ensures
        strs_view(final(out)@) == strs_view(old(out)@) + step_prefixes(pairs_view(refs@), refs@.len() as int),
{
    let mut k: usize = 0;
    while k < refs.len()
        invariant
            k <= refs@.len(),
            strs_view(out@) == strs_view(old(out)@) + step_prefixes(pairs_view(refs@), k as int),
        decreases refs@.len() - k,
    {
        assert(pairs_view(refs@)[k as int] == (refs@[k as int].0@, refs@[k as int].1@));
        if !reserved(refs[k].0.as_str()) {
            push_string(out, refs[k].0.as_str());
        }
        assert(strs_view(out@) =~= strs_view(old(out)@) + step_prefixes(pairs_view(refs@), k + 1));
        k = k + 1;
    }
}

fn push_ids(out: &mut Vec<String>, ids: &Vec<StepId>)
    ensures
        strs_view(final(out)@) == strs_view(old(out)@) + ids_view(ids@),
{
    let mut k: usize = 0;
    while k < ids.len()
        invariant
            k <= ids@.len(),
            strs_view(out@) == strs_view(old(out)@) + ids_view(ids@).subrange(0, k as int),
        decreases ids@.len() - k,
    {
        push_string(out, ids[k].0.as_str());
        assert(strs_view(out@) =~= strs_view(old(out)@) + ids_view(ids@).subrange(0, k + 1));
        k = k + 1;
    }
    assert(ids_view(ids@).subrange(0, ids@.len() as int) =~= ids_view(ids@));
}

/// What a step depends on.
fn step_dep_names_exec(step: &StepDef) -> (r: Vec<String>)
    ensures
        strs_view(r@) == step_dep_names(*step),
{
    let mut out: Vec<String> = Vec::new();
    if let Some(a) = &step.after {
        push_ids(&mut out, a);
    }
    let refs = op_refs_exec(&step.op);
    step_prefixes_exec(&refs, &mut out);
    if let Some(c) = &step.iterate {
        if c.over.parts.len() > 0 && !reserved(c.over.parts[0].as_str()) {
            assert(c.over.pv()[0] == c.over.parts@[0]@);
            push_string(&mut out, c.over.parts[0].as_str());
        }
    }
    assert(strs_view(out@) =~= step_dep_names(*step));
    out
}

// ---------------------------------------------------------------------------
// Dependency cycles
// ---------------------------------------------------------------------------

/// What the steps (among the first `n`) with identifier `id` depend on.
pub open spec fn id_deps(def: PipelineDef, id: Seq<char>, n: int) -> Seq<Seq<char>>
    decreases n,
{
    if n <= 0 {
        Seq::empty()
    } else {
        id_deps(def, id, n - 1) + if def.steps@[n - 1].id.0@ == id {
            step_dep_names(def.steps@[n - 1])
        } else {
            Seq::empty()
        }
    }
}

/// The positions of first occurrences among the first `n` identifiers.
pub open spec fn unique_upto(ids: Seq<Seq<char>>, n: int) -> Seq<int>
    decreases n,
{
    if n <= 0 {
        Seq::empty()
    } else {
        unique_upto(ids, n - 1) + if !ids.subrange(0, n - 1).contains(ids[n - 1]) {
            seq![n - 1]
        } else {
            Seq::empty()
        }
    }
}

/// Among the first `n` distinct identifiers, those node `t` depends on.
pub open spec fn preds_of(def: PipelineDef, ids: Seq<Seq<char>>, u: Seq<int>, t: int, n: int) -> Seq<usize>
    decreases n,
{
    if n <= 0 {
        Seq::empty()
    } else {
        preds_of(def, ids, u, t, n - 1) + if n - 1 != t && id_deps(def, ids[u[t]], def.steps@.len() as int).contains(
            ids[u[n - 1]],
        ) {
            seq![(n - 1) as usize]
        } else {
            Seq::empty()
        }
    }
}

/// The dependency graph on distinct step identifiers (in order of first
/// occurrence): node `t` depends on node `u` when some step named like `t`
/// depends on the name of `u`, `u` other than `t`.
pub open spec fn dep_graph(def: PipelineDef) -> Seq<Seq<usize>> {
    let ids = step_ids(def);
    let u = unique_upto(ids, ids.len() as int);
    Seq::new(u.len(), |t: int| preds_of(def, ids, u, t, u.len() as int))
}

pub open spec fn cycle_errors(def: PipelineDef) -> Seq<Issue> {
    if has_cycle(dep_graph(def)) {
        one("cycle_detected"@, "步骤依赖存在环（after / inputs 引用 / iterate.over）"@)
    } else {
        none()
    }
}

pub open spec fn as_ints(v: Seq<usize>) -> Seq<int> {
    v.map_values(|x: usize| x as int)
}

/// What the steps with identifier `id` depend on, all together.
fn id_deps_exec(def: &PipelineDef, deps: &Vec<Vec<String>>, id: &str) -> (r: Vec<String>)
    requires
        deps@.len() == def.steps@.len(),
        forall|i: int| 0 <= i < deps@.len() ==> strs_view(#[trigger] deps@[i]@) == step_dep_names(def.steps@[i]),
    ensures
        strs_view(r@) == id_deps(*def, id@, def.steps@.len() as int),
{
    let mut out: Vec<String> = Vec::new();
    let mut i: usize = 0;
    while i < def.steps.len()
        invariant
            i <= def.steps@.len(),
            deps@.len() == def.steps@.len(),
            forall|i: int| 0 <= i < deps@.len() ==> strs_view(#[trigger] deps@[i]@) == step_dep_names(def.steps@[i]),
            strs_view(out@) == id_deps(*def, id@, i as int),
        decreases def.steps@.len() - i,
    {
        let ghost before = out@;
        if str_is(def.steps[i].id.0.as_str(), id) {
            crate::dsl::refs::append_strings(&mut out, &deps[i]);
        }
        assert(strs_view(out@) =~= id_deps(*def, id@, i + 1));
        i = i + 1;
    }
    out
}

fn check_cycle(report: &mut ValidationReport, def: &PipelineDef, ids: &Vec<StepId>)
    requires
        ids_view(ids@) == step_ids(*def),
    ensures
        errors_view(final(report).errors@) == errors_view(old(report).errors@) + cycle_errors(*def),
        final(report).warnings@ == old(report).warnings@,
{
    let ghost iv = step_ids(*def);
    let n = def.steps.len();
    assert(ids@.len() == n) by {
        assert(ids_view(ids@).len() == ids@.len());
    }
    // what each step depends on
    let mut deps: Vec<Vec<String>> = Vec::new();
    let mut i: usize = 0;
    while i < n
        invariant
            i <= n,
            n == def.steps@.len(),
            deps@.len() == i,
            forall|k: int| 0 <= k < i ==> strs_view(#[trigger] deps@[k]@) == step_dep_names(def.steps@[k]),
        decreases n - i,
    {
        let d = step_dep_names_exec(&def.steps[i]);
        deps.push(d);
        i = i + 1;
    }
    // first occurrences
    let mut uniq: Vec<usize> = Vec::new();
    let mut i: usize = 0;
    while i < n
        invariant
            i <= n,
            n == def.steps@.len(),
            ids@.len() == n,
            iv == ids_view(ids@),
            iv == step_ids(*def),
            as_ints(uniq@) == unique_upto(iv, i as int),
            forall|k: int| 0 <= k < uniq@.len() ==> (#[trigger] uniq@[k]) < i,
        decreases n - i,
    {
        assert(iv[i as int] == ids@[i as int].0@);
        if !among(ids, i, ids[i].0.as_str()) {
            uniq.push(i);
        }
        assert(as_ints(uniq@) =~= unique_upto(iv, i + 1));
        i = i + 1;
    }
    let m = uniq.len();
    // what each distinct identifier depends on
    let mut iddeps: Vec<Vec<String>> = Vec::new();
    let mut t: usize = 0;
    while t < m
        invariant
            t <= m,
            m == uniq@.len(),
            n == def.steps@.len(),
            ids@.len() == n,
            deps@.len() == n,
            forall|k: int| 0 <= k < n ==> strs_view(#[trigger] deps@[k]@) == step_dep_names(def.steps@[k]),
            forall|k: int| 0 <= k < uniq@.len() ==> (#[trigger] uniq@[k]) < n,
            iddeps@.len() == t,
            forall|k: int| 0 <= k < t ==> strs_view(#[trigger] iddeps@[k]@) == id_deps(*def, ids@[uniq@[k] as int].0@, n as int),
        decreases m - t,
    {
        let d = id_deps_exec(def, &deps, ids[uniq[t]].0.as_str());
        iddeps.push(d);
        t = t + 1;
    }
    // the graph
    let ghost g = dep_graph(*def);
    let ghost u = unique_upto(iv, n as int);
    let mut preds: Vec<Vec<usize>> = Vec::new();
    let mut t: usize = 0;
    while t < m
        invariant
            t <= m,
            m == uniq@.len(),
            n == def.steps@.len(),
            ids@.len() == n,
            iv == ids_view(ids@),
            iv == step_ids(*def),
            u == unique_upto(iv, n as int),
            as_ints(uniq@) == u,
            g == dep_graph(*def),
            forall|k: int| 0 <= k < uniq@.len() ==> (#[trigger] uniq@[k]) < n,
            iddeps@.len() == m,
            forall|k: int| 0 <= k < m ==> strs_view(#[trigger] iddeps@[k]@) == id_deps(*def, ids@[uniq@[k] as int].0@, n as int),
            preds@.len() == t,
            forall|k: int| 0 <= k < t ==> (#[trigger] preds@[k])@ == g[k],
            forall|k: int, j: int| 0 <= k < t && 0 <= j < preds@[k]@.len() ==> #[trigger] preds@[k]@[j] < m,
        decreases m - t,
    {
        let mut p: Vec<usize> = Vec::new();
        let mut w: usize = 0;
        while w < m
            invariant
                w <= m,
                t < m,
                m == uniq@.len(),
                n == def.steps@.len(),
                ids@.len() == n,
                iv == ids_view(ids@),
                iv == step_ids(*def),
                as_ints(uniq@) == u,
                forall|k: int| 0 <= k < uniq@.len() ==> (#[trigger] uniq@[k]) < n,
                iddeps@.len() == m,
                strs_view(iddeps@[t as int]@) == id_deps(*def, ids@[uniq@[t as int] as int].0@, n as int),
                p@ == preds_of(*def, iv, u, t as int, w as int),
                forall|j: int| 0 <= j < p@.len() ==> #[trigger] p@[j] < m,
            decreases m - w,
        {
            assert(u[t as int] == uniq@[t as int] as int);
            assert(u[w as int] == uniq@[w as int] as int);
            assert(iv[uniq@[t as int] as int] == ids@[uniq@[t as int] as int].0@);
            assert(iv[uniq@[w as int] as int] == ids@[uniq@[w as int] as int].0@);
            if w != t && string_among(&iddeps[t], ids[uniq[w]].0.as_str()) {
                p.push(w);
            }
            assert(p@ =~= preds_of(*def, iv, u, t as int, w + 1));
            w = w + 1;
        }
        proof {
            assert(g[t as int] == preds_of(*def, iv, u, t as int, m as int));
        }
        preds.push(p);
        t = t + 1;
    }
    proof {
        assert(graph_view(preds@) =~= g);
        assert(graph_ok(g)) by {
            assert forall|v: int, k: int| 0 <= v < g.len() && 0 <= k < g[v].len() implies (#[trigger] g[v][k]) < g.len() by {
                assert(preds@[v]@ == g[v]);
                assert(preds@[v]@[k] < m);
            }
        }
    }
    let (layers, rem) = layer_graph(&preds);
    proof {
        lemma_rest_is_cycle(g, layers@.map_values(|l: Vec<usize>| l@), rem@);
    }
    if rem.len() > 0 {
        push_error(report, "cycle_detected", crate::text::to_string("步骤依赖存在环（after / inputs 引用 / iterate.over）"));
    }
    assert(errors_view(report.errors@) =~= errors_view(old(report).errors@) + cycle_errors(*def));
}

// ---------------------------------------------------------------------------
// The whole validation
// ---------------------------------------------------------------------------

/// Every error, in the order the checks run: the pipeline name, the steps,
/// the slots, slot references, `after` references, output references, slot
/// schemas, JS syntax, dependency cycles.
pub open spec fn validation_errors(def: PipelineDef, schema: Seq<Option<Seq<char>>>, js: Seq<JsCheck>) -> Seq<Issue> {
    let n = def.steps@.len() as int;
    let m = def.slots@.len() as int;
    name_errors(def.name@) + (if n == 0 {
        one("no_steps"@, "Pipeline 必须包含至少一个步骤"@)
    } else {
        none()
    }) + steps_errors(def, n) + slots_errors(slot_names(def), m) + steps_slot_errors(def, n)
        + output_slot_errors(def) + steps_after_ref_errors(def, n) + output_ref_errors(def)
        + schema_errors_upto(def, schema, m) + js_errors_upto(def, js, n) + cycle_errors(def)
}

/// Every warning: unused slots, steps nothing refers to, steps with no
/// dependency.
pub open spec fn validation_warnings(def: PipelineDef) -> Seq<Issue> {
    unused_slot_warnings(def, def.slots@.len() as int) + orphan_warnings(def, def.steps@.len() as int)
        + upstream_warnings(def, def.steps@.len() as int)
}

pub fn step_ids_exec(def: &PipelineDef) -> (r: Vec<StepId>)
    ensures
        ids_view(r@) == step_ids(*def),
{
    let mut r: Vec<StepId> = Vec::new();
    let mut i: usize = 0;
    while i < def.steps.len()
        invariant
            i <= def.steps@.len(),
            r@.len() == i,
            forall|k: int| 0 <= k < i ==> (#[trigger] r@[k]).0@ == def.steps@[k].id.0@,
        decreases def.steps@.len() - i,
    {
        r.push(StepId::new(def.steps[i].id.0.as_str()));
        i = i + 1;
    }
    assert(ids_view(r@) =~= step_ids(*def));
    r
}

fn slot_names_exec(def: &PipelineDef) -> (r: Vec<String>)
    ensures
        strs_view(r@) == slot_names(*def),
{
    let mut r: Vec<String> = Vec::new();
    let mut i: usize = 0;
    while i < def.slots.len()
        invariant
            i <= def.slots@.len(),
            strs_view(r@) == slot_names(*def).subrange(0, i as int),
        decreases def.slots@.len() - i,
    {
        push_string(&mut r, def.slots[i].name.as_str());
        assert(strs_view(r@) =~= slot_names(*def).subrange(0, i + 1));
        i = i + 1;
    }
    assert(slot_names(*def).subrange(0, def.slots@.len() as int) =~= slot_names(*def));
    r
}

fn check_slots(report: &mut ValidationReport, names: &Vec<String>)
    ensures
        errors_view(final(report).errors@) == errors_view(old(report).errors@) + slots_errors(strs_view(names@), names@.len() as int),
        final(report).warnings@ == old(report).warnings@,
{
    let ghost nv = strs_view(names@);
    let mut j: usize = 0;
    while j < names.len()
        invariant
            j <= names@.len(),
            nv == strs_view(names@),
            report.warnings@ == old(report).warnings@,
            errors_view(report.errors@) == errors_view(old(report).errors@) + slots_errors(nv, j as int),
        decreases names@.len() - j,
    {
        proof {
            reveal(slot_errors);
        }
        let ghost e0 = errors_view(report.errors@);
        let name = names[j].as_str();
        assert(nv[j as int] == name@);
        if name.unicode_len() == 0 {
            push_error(report, "empty_slot_name", crate::text::to_string("slot 名称不能为空"));
        } else if !is_valid_slot_name(name) {
            push_error(report, "invalid_name_charset", cat2("slot 名称含非法字符（仅允许 [A-Za-z0-9_-]）: ", name));
        }
        let ghost e1 = errors_view(report.errors@);
        let dup = name.unicode_len() > 0 && {
            let r = string_among_upto(names, j, name);
            r
        };
        if dup {
            push_error(report, "duplicate_slot_name", cat2("slot 名称重复: ", name));
        }
        assert(errors_view(report.errors@) =~= e0 + slot_errors(nv, j as int));
        j = j + 1;
    }
}

pub fn string_among_upto(v: &Vec<String>, upto: usize, s: &str) -> (r: bool)
    requires
        upto <= v@.len(),
    ensures
        r == strs_view(v@).subrange(0, upto as int).contains(s@),
{
    let ghost w = strs_view(v@).subrange(0, upto as int);
    let mut i: usize = 0;
    while i < upto
        invariant
            i <= upto <= v@.len(),
            w == strs_view(v@).subrange(0, upto as int),
            forall|k: int| 0 <= k < i ==> w[k] != s@,
        decreases upto - i,
    {
        if str_is(v[i].as_str(), s) {
            assert(w[i as int] == s@);
            return true;
        }
        i = i + 1;
    }
    false
}

fn used_slot_names_exec(def: &PipelineDef, orefs: &Vec<(String, String)>) -> (r: Vec<String>)
    requires
        pairs_view(orefs@) == output_refs(def.output),
    ensures
        strs_view(r@) == used_slot_names(*def),
{
    let mut out: Vec<String> = Vec::new();
    let mut i: usize = 0;
    while i < def.steps.len()
        invariant
            i <= def.steps@.len(),
            strs_view(out@) == steps_slot_names(*def, i as int),
        decreases def.steps@.len() - i,
    {
        let refs = op_refs_exec(&def.steps[i].op);
        refs_slot_names_exec(&refs, &mut out);
        i = i + 1;
    }
    refs_slot_names_exec(orefs, &mut out);
    out
}

fn referenced_names_exec(def: &PipelineDef, orefs: &Vec<(String, String)>) -> (r: Vec<String>)
    requires
        pairs_view(orefs@) == output_refs(def.output),
    ensures
        strs_view(r@) == referenced_names(*def),
{
    let mut out: Vec<String> = Vec::new();
    let mut i: usize = 0;
    while i < def.steps.len()
        invariant
            i <= def.steps@.len(),
            strs_view(out@) == steps_referenced(*def, i as int),
        decreases def.steps@.len() - i,
    {
        let step = &def.steps[i];
        let refs = op_refs_exec(&step.op);
        step_prefixes_exec(&refs, &mut out);
        if let Some(a) = &step.after {
            push_ids(&mut out, a);
        } else {
            assert(after_view(*step) =~= Seq::<Seq<char>>::empty());
            assert(strs_view(out@) =~= strs_view(out@) + after_view(*step));
        }
        i = i + 1;
    }
    let ghost base = strs_view(out@);
    let mut k: usize = 0;
    while k < orefs.len()
        invariant
            k <= orefs@.len(),
            strs_view(out@) == base + all_prefixes(pairs_view(orefs@)).subrange(0, k as int),
        decreases orefs@.len() - k,
    {
        push_string(&mut out, orefs[k].0.as_str());
        assert(strs_view(out@) =~= base + all_prefixes(pairs_view(orefs@)).subrange(0, k + 1));
        k = k + 1;
    }
    assert(all_prefixes(pairs_view(orefs@)).subrange(0, orefs@.len() as int) =~= all_prefixes(pairs_view(orefs@)));
    out
}

fn check_warnings(report: &mut ValidationReport, def: &PipelineDef, orefs: &Vec<(String, String)>)
    requires
        pairs_view(orefs@) == output_refs(def.output),
    ensures
        warnings_view(final(report).warnings@) == warnings_view(old(report).warnings@) + validation_warnings(*def),
        final(report).errors@ == old(report).errors@,
{
    let used = used_slot_names_exec(def, orefs);
    let mut j: usize = 0;
    while j < def.slots.len()
        invariant
            j <= def.slots@.len(),
            strs_view(used@) == used_slot_names(*def),
            report.errors@ == old(report).errors@,
            warnings_view(report.warnings@) == warnings_view(old(report).warnings@) + unused_slot_warnings(*def, j as int),
        decreases def.slots@.len() - j,
    {
        let name = def.slots[j].name.as_str();
        if !string_among(&used, name) {
            push_warning(report, "unused_slot", cat3("slot ", name, " 已声明但未在任何步骤中使用"));
        }
        j = j + 1;
    }
    let ghost w1 = warnings_view(report.warnings@);
    let referenced = referenced_names_exec(def, orefs);
    let mut i: usize = 0;
    while i < def.steps.len()
        invariant
            i <= def.steps@.len(),
            strs_view(referenced@) == referenced_names(*def),
            report.errors@ == old(report).errors@,
            warnings_view(report.warnings@) == w1 + orphan_warnings(*def, i as int),
        decreases def.steps@.len() - i,
    {
        let id = def.steps[i].id.0.as_str();
        if !string_among(&referenced, id) {
            push_warning(report, "orphan_step", cat3("步骤 ", id, " 未被任何下游步骤或 output 引用"));
        }
        i = i + 1;
    }
    let ghost w2 = warnings_view(report.warnings@);
    let mut has_deps: Vec<bool> = Vec::new();
    let mut i: usize = 0;
    while i < def.steps.len()
        invariant
            i <= def.steps@.len(),
            has_deps@.len() == i,
            forall|k: int| 0 <= k < i ==> #[trigger] has_deps@[k] == (step_dep_names(def.steps@[k]).len() > 0),
        decreases def.steps@.len() - i,
    {
        let d = step_dep_names_exec(&def.steps[i]);
        has_deps.push(d.len() > 0);
        i = i + 1;
    }
    let mut i: usize = 0;
    while i < def.steps.len()
        invariant
            i <= def.steps@.len(),
            has_deps@.len() == def.steps@.len(),
            forall|k: int| 0 <= k < def.steps@.len() ==> #[trigger] has_deps@[k] == (step_dep_names(def.steps@[k]).len() > 0),
            report.errors@ == old(report).errors@,
            warnings_view(report.warnings@) == w2 + upstream_warnings(*def, i as int),
        decreases def.steps@.len() - i,
    {
        let id = def.steps[i].id.0.as_str();
        let mut found = false;
        let mut j: usize = 0;
        while j < def.steps.len()
            invariant
                j <= def.steps@.len(),
                has_deps@.len() == def.steps@.len(),
                forall|k: int| 0 <= k < def.steps@.len() ==> #[trigger] has_deps@[k] == (step_dep_names(def.steps@[k]).len() > 0),
                found == exists|k: int| 0 <= k < j && def.steps@[k].id.0@ == id@ && #[trigger] step_dep_names(def.steps@[k]).len() > 0,
            decreases def.steps@.len() - j,
        {
            if has_deps[j] && str_is(def.steps[j].id.0.as_str(), id) {
                found = true;
            }
            j = j + 1;
        }
        assert(found == id_has_deps(*def, id@));
        if !found {
            push_warning(report, "no_upstream_deps", cat3("步骤 ", id, " 没有上游依赖（无 after / inputs 引用 / iterate.over），将作为 DAG 根节点在 layer 0 并行执行"));
        }
        i = i + 1;
    }
    assert(warnings_view(report.warnings@) =~= warnings_view(old(report).warnings@) + validation_warnings(*def));
}

fn check_schemas(report: &mut ValidationReport, def: &PipelineDef, schema: &Vec<Option<String>>)
    requires
        schema@.len() == def.slots@.len(),
    ensures
        errors_view(final(report).errors@) == errors_view(old(report).errors@) + schema_errors_upto(
            *def,
            opt_strs_view(schema@),
            def.slots@.len() as int,
        ),
        final(report).warnings@ == old(report).warnings@,
{
    let mut j: usize = 0;
    while j < def.slots.len()
        invariant
            j <= def.slots@.len(),
            schema@.len() == def.slots@.len(),
            report.warnings@ == old(report).warnings@,
            errors_view(report.errors@) == errors_view(old(report).errors@) + schema_errors_upto(
                *def,
                opt_strs_view(schema@),
                j as int,
            ),
        decreases def.slots@.len() - j,
    {
        if let Some(e) = &schema[j] {
            push_error(report, "invalid_json_schema", cat4("slot ", def.slots[j].name.as_str(), " 的 schema 非法: ", e.as_str()));
        }
        j = j + 1;
    }
}

fn check_js(report: &mut ValidationReport, def: &PipelineDef, js: &Vec<JsCheck>)
    requires
        js@.len() == def.steps@.len(),
    ensures
        errors_view(final(report).errors@) == errors_view(old(report).errors@) + js_errors_upto(*def, js@, def.steps@.len() as int),
        final(report).warnings@ == old(report).warnings@,
{
    let mut i: usize = 0;
    while i < def.steps.len()
        invariant
            i <= def.steps@.len(),
            js@.len() == def.steps@.len(),
            report.warnings@ == old(report).warnings@,
            errors_view(report.errors@) == errors_view(old(report).errors@) + js_errors_upto(*def, js@, i as int),
        decreases def.steps@.len() - i,
    {
        let id = def.steps[i].id.0.as_str();
        if js_source_exec(&def.steps[i]).is_some() {
            match &js[i] {
                JsCheck::RuntimeFailed => push_error(report, "js_runtime_error", cat3("步骤/规则 ", id, " 的 JS 运行时创建失败")),
                JsCheck::ContextFailed => push_error(report, "js_runtime_error", cat3("步骤/规则 ", id, " 的 JS 上下文创建失败")),
                JsCheck::SyntaxError(m) => push_error(report, "js_syntax_error", cat4("步骤/规则 ", id, " 的 JS 代码语法错误: ", m.as_str())),
                JsCheck::Passed => {},
            }
        }
        i = i + 1;
    }
}

/// Validates a definition, given the outcome of compiling each slot's
/// schema (`Some(message)` when it does not compile) and of checking each
/// JS step's code.
pub fn validate_with(def: &PipelineDef, schema: &Vec<Option<String>>, js: &Vec<JsCheck>) -> (r: ValidationReport)
    requires
        schema@.len() == def.slots@.len(),
        js@.len() == def.steps@.len(),
    ensures
        errors_view(r.errors@) == validation_errors(*def, opt_strs_view(schema@), js@),
        warnings_view(r.warnings@) == validation_warnings(*def),
{
    let mut report = ValidationReport { errors: Vec::new(), warnings: Vec::new() };
    check_name(&mut report, def.name.as_str());
    if def.steps.len() == 0 {
        push_error(&mut report, "no_steps", crate::text::to_string("Pipeline 必须包含至少一个步骤"));
    }
    let ghost e1 = errors_view(report.errors@);
    assert(e1 == name_errors(def.name@) + (if def.steps@.len() == 0 {
        one("no_steps"@, "Pipeline 必须包含至少一个步骤"@)
    } else {
        none()
    })) by {
        assert(e1 =~= name_errors(def.name@) + (if def.steps@.len() == 0 {
            one("no_steps"@, "Pipeline 必须包含至少一个步骤"@)
        } else {
            none()
        }));
    }
    let ids = step_ids_exec(def);
    let mut i: usize = 0;
    while i < def.steps.len()
        invariant
            i <= def.steps@.len(),
            ids_view(ids@) == step_ids(*def),
            report.warnings@.len() == 0,
            errors_view(report.errors@) == e1 + steps_errors(*def, i as int),
        decreases def.steps@.len() - i,
    {
        check_step(&mut report, def, &ids, i);
        i = i + 1;
    }
    let ghost e1b = errors_view(report.errors@);
    let names = slot_names_exec(def);
    assert(names@.len() == def.slots@.len()) by {
        assert(strs_view(names@).len() == names@.len());
    }
    check_slots(&mut report, &names);
    let ghost e2 = errors_view(report.errors@);
    assert(e2 == e1b + slots_errors(slot_names(*def), def.slots@.len() as int));
    let mut i: usize = 0;
    while i < def.steps.len()
        invariant
            i <= def.steps@.len(),
            strs_view(names@) == slot_names(*def),
            report.warnings@.len() == 0,
            errors_view(report.errors@) == e2 + steps_slot_errors(*def, i as int),
        decreases def.steps@.len() - i,
    {
        check_step_slots(&mut report, &names, &def.steps[i]);
        i = i + 1;
    }
    let ghost e2b = errors_view(report.errors@);
    let orefs = output_refs_exec(&def.output);
    proof {
        reveal_strlit("output");
        assert(pairs_view(orefs@).len() == orefs@.len());
    }
    push_slot_refs_errors(&mut report, &names, &orefs, "output");
    let ghost e3 = errors_view(report.errors@);
    assert(e3 == e2b + output_slot_errors(*def));
    let mut i: usize = 0;
    while i < def.steps.len()
        invariant
            i <= def.steps@.len(),
            ids_view(ids@) == step_ids(*def),
            report.warnings@.len() == 0,
            errors_view(report.errors@) == e3 + steps_after_ref_errors(*def, i as int),
        decreases def.steps@.len() - i,
    {
        let step = &def.steps[i];
        let ghost before = errors_view(report.errors@);
        if let Some(a) = &step.after {
            check_after_refs(&mut report, step.id.0.as_str(), &ids, a);
        }
        assert(errors_view(report.errors@) =~= e3 + steps_after_ref_errors(*def, i + 1));
        i = i + 1;
    }
    let ghost e4 = errors_view(report.errors@);
    if def.steps.len() > 0 {
        check_output_refs(&mut report, &ids, &orefs);
    }
    assert(errors_view(report.errors@) =~= e4 + output_ref_errors(*def));
    let ghost e5 = errors_view(report.errors@);
    check_schemas(&mut report, def, schema);
    let ghost e6 = errors_view(report.errors@);
    check_js(&mut report, def, js);
    let ghost e7 = errors_view(report.errors@);
    check_cycle(&mut report, def, &ids);
    assert(errors_view(report.errors@) == e7 + cycle_errors(*def));
    assert(e7 == e6 + js_errors_upto(*def, js@, def.steps@.len() as int));
    assert(e6 == e5 + schema_errors_upto(*def, opt_strs_view(schema@), def.slots@.len() as int));
    check_warnings(&mut report, def, &orefs);
    assert(errors_view(report.errors@) =~= validation_errors(*def, opt_strs_view(schema@), js@));
    assert(warnings_view(report.warnings@) =~= validation_warnings(*def));
    report
}

/// The error `jsonschema` reports when a schema (given as JSON text) does
/// not compile, if it does not.
pub uninterp spec fn schema_compile_error(schema_text: Seq<char>) -> Option<Seq<char>>;

/// `jsonschema::validator_for` on the schema read from its JSON text with
/// `serde_json::from_str`: the error's text when the schema does not
/// compile. The outcome is taken to depend on the text alone.
#[verifier::external_body]
fn compile_schema(schema_text: &str) -> (r: Option<String>)
    ensures
        match r {
            Some(e) => schema_compile_error(schema_text@) == Some(e@),
            None => schema_compile_error(schema_text@) is None,
        },
{
    match serde_json::from_str::<serde_json::Value>(schema_text) {
        Ok(v) => match jsonschema::validator_for(&v) {
            Ok(_) => None,
            Err(e) => Some(e.to_string()),
        },
        Err(e) => Some(e.to_string()),
    }
}

/// What compiling each slot's schema reports.
pub open spec fn schema_outcomes(def: PipelineDef) -> Seq<Option<Seq<char>>> {
    Seq::new(def.slots@.len(), |j: int| schema_compile_error(crate::json::text_of(jv(def.slots@[j].schema))))
}

/// Validates a definition. Each slot's schema is compiled with `jsonschema`;
/// the outcome of checking each JS step's code (which runs the code in a
/// JS engine under a watchdog) is given in `js`, one entry per step.
pub fn validate(def: &PipelineDef, js: &Vec<JsCheck>) -> (r: ValidationReport)
    requires
        js@.len() == def.steps@.len(),
    ensures
        errors_view(r.errors@) == validation_errors(*def, schema_outcomes(*def), js@),
        warnings_view(r.warnings@) == validation_warnings(*def),
{
    let mut schema: Vec<Option<String>> = Vec::new();
    let mut j: usize = 0;
    while j < def.slots.len()
        invariant
            j <= def.slots@.len(),
            opt_strs_view(schema@) == schema_outcomes(*def).subrange(0, j as int),
        decreases def.slots@.len() - j,
    {
        let text = crate::json::to_text(&def.slots[j].schema);
        let e = compile_schema(text.as_str());
        let ghost prev = schema@;
        let ghost eg = e;
        let ghost o = match eg {
            Some(x) => Some(x@),
            None => None,
        };
        assert(o == schema_outcomes(*def)[j as int]);
        assert(prev.len() == j) by {
            assert(opt_strs_view(prev).len() == prev.len());
        }
        schema.push(e);
        proof {
            assert(schema@ == prev.push(eg));
            assert(schema@[j as int] == eg);
            assert(opt_strs_view(schema@)[j as int] == o);
        }
        assert(opt_strs_view(schema@) =~= schema_outcomes(*def).subrange(0, j + 1));
        j = j + 1;
    }
    assert(schema_outcomes(*def).subrange(0, def.slots@.len() as int) =~= schema_outcomes(*def));
    validate_with(def, &schema, js)
}

} // verus!
