//! Skill graph rules: the six managed top-level domains and the mapping of any
//! other root name onto one of them.
use vstd::prelude::*;
use vstd::string::StringExecFns;

use crate::skill_query::{in_subtree_spec, is_in_subtree};
use crate::text::{chars_eq, chars_of, contains, contains_chars, opt_view, owned, str_eq, string_of, sub_chars, trim, trim_chars};

verus! {

/// The managed top-level domains: `(name, path, icon)`.
pub const TOP_LEVEL_DOMAINS: [(&'static str, &'static str, &'static str); 6] = [
    ("专业技术与硬技能", "/hard-skills", "Code"),
    ("系统设计与架构思考", "/architecture", "Graph"),
    ("业务理解与行业实操", "/business-ops", "Briefcase"),
    ("工程落地与质量调优", "/engineering", "Cpu"),
    ("项目协作与团队管理", "/leadership", "UsersThree"),
    ("问题分析与通用素养", "/general-competence", "Brain"),
];

/// The second-level domains seeded under the managed domains:
/// `(top-level domain, name, path suffix, icon)`.
pub const SUBDOMAIN_PRESETS: [(&'static str, &'static str, &'static str, &'static str); 7] = [
    ("专业技术与硬技能", "编程语言与核心基础", "/languages", "Code"),
    ("专业技术与硬技能", "存储与数据系统", "/storage", "Database"),
    ("系统设计与架构思考", "高可用与微服务架构", "/microservices", "Buildings"),
    ("业务理解与行业实操", "业务链路与领域建模", "/domain-modeling", "Cube"),
    ("工程落地与质量调优", "基础设施与运维调优", "/infra", "Cpu"),
    ("项目协作与团队管理", "敏捷研发与协作交付", "/agile", "UsersThree"),
    ("问题分析与通用素养", "复杂问题分析与决策", "/problem-solving", "Brain"),
];

/// The skills seeded under them: `(path suffix of the second-level domain,
/// name, path suffix, icon)`.
pub const LEAF_PRESETS: [(&'static str, &'static str, &'static str, &'static str); 25] = [
    ("/languages", "Rust 核心与并发", "/languages/rust", "FileCode"),
    ("/languages", "Go 并发与运行时", "/languages/go", "FileCode"),
    ("/languages", "Java 核心与 JVM", "/languages/java", "FileCode"),
    ("/languages", "数据结构与算法", "/languages/dsa", "TreeStructure"),
    ("/storage", "MySQL 索引与事务", "/storage/mysql", "Database"),
    ("/storage", "Redis 缓存与底层结构", "/storage/redis", "HardDrive"),
    ("/storage", "PostgreSQL 与高级特性", "/storage/postgres", "Database"),
    ("/storage", "分布式存储与事务", "/storage/distributed-tx", "ShareNetwork"),
    ("/microservices", "高并发微服务设计", "/microservices/design", "Buildings"),
    ("/microservices", "消息队列与事件驱动", "/microservices/mq", "ChatDots"),
    ("/microservices", "领域驱动设计 (DDD)", "/microservices/ddd", "Cube"),
    ("/microservices", "缓存一致性与高可用", "/microservices/cache", "ShieldCheck"),
    ("/domain-modeling", "业务状态机与流程闭环", "/domain-modeling/state-machine", "GitBranch"),
    ("/domain-modeling", "核心业务指标与对账体系", "/domain-modeling/metrics", "ChartLineUp"),
    ("/domain-modeling", "行业垂直场景与痛点攻坚", "/domain-modeling/industry-scenarios", "Briefcase"),
    ("/infra", "Linux 操作系统与内核", "/infra/linux", "TerminalWindow"),
    ("/infra", "计算机网络 (TCP/HTTP)", "/infra/network", "Globe"),
    ("/infra", "Docker & Kubernetes", "/infra/k8s", "Cloud"),
    ("/infra", "可观测性与性能调优", "/infra/observability", "Gauge"),
    ("/agile", "研发流程与代码规范", "/agile/standards", "CheckSquare"),
    ("/agile", "团队协同与跨组沟通", "/agile/collaboration", "Users"),
    ("/agile", "项目排期与风险控制", "/agile/risk-management", "Clock"),
    ("/problem-solving", "生产紧急故障排障", "/problem-solving/troubleshooting", "Warning"),
    ("/problem-solving", "技术选型与权衡分析", "/problem-solving/tradeoffs", "Scales"),
    ("/problem-solving", "系统复盘与演进沉淀", "/problem-solving/retrospective", "ArrowsClockwise"),
];

/// Path of the first managed domain at or after index `i` named `top`.
pub open spec fn top_path_from(top: Seq<char>, i: int) -> Option<Seq<char>>
    decreases 6 - i,
{
    if i < 0 || i >= 6 {
        None
    } else if TOP_LEVEL_DOMAINS@[i].0@ == top {
        Some(TOP_LEVEL_DOMAINS@[i].1@)
    } else {
        top_path_from(top, i + 1)
    }
}

/// Path of the managed domain named `top`.
pub fn top_domain_path(top: &str) -> (r: Option<&'static str>)
    ensures
        match r {
            Some(p) => top_path_from(top@, 0) == Some(p@),
            None => top_path_from(top@, 0) is None,
        },
{
    let mut i: usize = 0;
    while i < 6
        invariant
            i <= 6,
            top_path_from(top@, 0) == top_path_from(top@, i as int),
        decreases 6 - i,
    {
        if str_eq(TOP_LEVEL_DOMAINS[i].0, top) {
            return Some(TOP_LEVEL_DOMAINS[i].1);
        }
        i += 1;
    }
    None
}

/// Path of a seeded second-level domain: the path of its managed domain
/// followed by its suffix.
pub fn subdomain_path(top: &str, suffix: &str) -> (r: String)
    requires
        top_path_from(top@, 0) is Some,
    ensures
        r@ == top_path_from(top@, 0)->0 + suffix@,
{
    match top_domain_path(top) {
        Some(p) => {
            let mut s = owned(p);
            s.append(suffix);
            s
        },
        None => owned(suffix),
    }
}

/// `str::trim_start_matches('/')`.
pub open spec fn strip_leading_slashes(s: Seq<char>) -> Seq<char>
    decreases s.len(),
{
    if s.len() > 0 && s[0] == '/' {
        strip_leading_slashes(s.drop_first())
    } else {
        s
    }
}

/// Path of a seeded skill: the path of its second-level domain, `/`, and its
/// suffix without leading slashes.
pub fn leaf_path(domain_path: &str, suffix: &str) -> (r: String)
    ensures
        r@ == domain_path@ + "/"@ + strip_leading_slashes(suffix@),
{
    let c = chars_of(suffix);
    let mut j: usize = 0;
    assert(c@.skip(0) =~= c@);
    while j < c.len() && c[j] == '/'
        invariant
            j <= c@.len(),
            strip_leading_slashes(c@) == strip_leading_slashes(c@.skip(j as int)),
        decreases c@.len() - j,
    {
        assert(c@.skip(j as int).drop_first() =~= c@.skip(j + 1));
        j += 1;
    }
    let rest = sub_chars(&c, j, c.len());
    assert(rest@ =~= c@.skip(j as int));
    let mut s = owned(domain_path);
    s.append("/");
    s.append(string_of(&rest).as_str());
    s
}

/// Result of a skill merge.
#[derive(Debug, Clone, Copy, PartialEq, Eq)]
pub struct MergeSkillResult {
    pub source_id: i64,
    pub target_id: i64,
    pub remapped_questions: u64,
    pub remapped_children: u64,
}

/// `name` contains one of the keywords.
pub open spec fn contains_any(name: Seq<char>, kws: Seq<Seq<char>>) -> bool {
    exists|i: int| 0 <= i < kws.len() && contains(name, #[trigger] kws[i])
}

pub open spec fn hard_skill_words() -> Seq<Seq<char>> {
    seq!["语言"@, "存储"@, "数据"@, "技术"@, "代码"@, "算法"@, "Java"@, "Rust"@, "Go"@, "前端"@, "后端"@]
}

pub open spec fn architecture_words() -> Seq<Seq<char>> {
    seq!["架构"@, "设计"@, "微服务"@, "分布式"@, "系统"@]
}

pub open spec fn engineering_words() -> Seq<Seq<char>> {
    seq!["工程"@, "基建"@, "网络"@, "调优"@, "运维"@, "Linux"@, "Docker"@, "K8s"@]
}

pub open spec fn leadership_words() -> Seq<Seq<char>> {
    seq!["管理"@, "协作"@, "团队"@, "项目"@, "沟通"@]
}

pub open spec fn general_words() -> Seq<Seq<char>> {
    seq!["素养"@, "分析"@, "思维"@, "通用"@, "解决"@, "排障"@]
}

/// Names of the managed domains.
pub open spec fn domain_names() -> Seq<Seq<char>> {
    seq![
        "专业技术与硬技能"@,
        "系统设计与架构思考"@,
        "业务理解与行业实操"@,
        "工程落地与质量调优"@,
        "项目协作与团队管理"@,
        "问题分析与通用素养"@,
    ]
}

/// The domain a root name maps to: itself when it is a managed domain, else by
/// keywords (hard skills, architecture, engineering, leadership, general
/// competence, in this order), else business.
pub open spec fn top_domain_spec(name: Seq<char>) -> Seq<char> {
    if domain_names().contains(name) {
        name
    } else if contains_any(name, hard_skill_words()) {
        "专业技术与硬技能"@
    } else if contains_any(name, architecture_words()) {
        "系统设计与架构思考"@
    } else if contains_any(name, engineering_words()) {
        "工程落地与质量调优"@
    } else if contains_any(name, leadership_words()) {
        "项目协作与团队管理"@
    } else if contains_any(name, general_words()) {
        "问题分析与通用素养"@
    } else {
        "业务理解与行业实操"@
    }
}

fn contains_any_of(name: &[char], kws: &[&'static str]) -> (r: bool)
    ensures
        r == (exists|i: int| 0 <= i < kws@.len() && contains(name@, (#[trigger] kws@[i])@)),
{
    let mut i: usize = 0;
    while i < kws.len()
        invariant
            i <= kws@.len(),
            forall|k: int| 0 <= k < i ==> !contains(name@, (#[trigger] kws@[k])@),
        decreases kws@.len() - i,
    {
        let k = chars_of(kws[i]);
        if contains_chars(name, &k) {
            return true;
        }
        i += 1;
    }
    false
}

/// Maps a name onto one of the six managed top-level domains (unmanaged
/// top-level domains are never created).
pub fn match_to_system_top_domain(name: &str) -> (r: &'static str)
    ensures
        r@ == top_domain_spec(name@),
{
    let mut i: usize = 0;
    while i < 6
        invariant
            i <= 6,
            forall|k: int| 0 <= k < i ==> name@ != (#[trigger] TOP_LEVEL_DOMAINS@[k]).0@,
        decreases 6 - i,
    {
        if str_eq(TOP_LEVEL_DOMAINS[i].0, name) {
            proof {
                assert(domain_names()[i as int] == TOP_LEVEL_DOMAINS@[i as int].0@);
            }
            return TOP_LEVEL_DOMAINS[i].0;
        }
        i += 1;
    }
    proof {
        assert forall|k: int| 0 <= k < 6 implies domain_names()[k] == (#[trigger] TOP_LEVEL_DOMAINS@[k]).0@ by {}
        assert(!domain_names().contains(name@));
    }
    let n = chars_of(name);
    let hard: [&'static str; 11] = ["语言", "存储", "数据", "技术", "代码", "算法", "Java", "Rust", "Go", "前端", "后端"];
    let arch: [&'static str; 5] = ["架构", "设计", "微服务", "分布式", "系统"];
    let eng: [&'static str; 8] = ["工程", "基建", "网络", "调优", "运维", "Linux", "Docker", "K8s"];
    let lead: [&'static str; 5] = ["管理", "协作", "团队", "项目", "沟通"];
    let gen: [&'static str; 6] = ["素养", "分析", "思维", "通用", "解决", "排障"];
    proof {
        assert forall|k: int| 0 <= k < 11 implies (#[trigger] hard@[k])@ == hard_skill_words()[k] by {}
        assert forall|k: int| 0 <= k < 5 implies (#[trigger] arch@[k])@ == architecture_words()[k] by {}
        assert forall|k: int| 0 <= k < 8 implies (#[trigger] eng@[k])@ == engineering_words()[k] by {}
        assert forall|k: int| 0 <= k < 5 implies (#[trigger] lead@[k])@ == leadership_words()[k] by {}
        assert forall|k: int| 0 <= k < 6 implies (#[trigger] gen@[k])@ == general_words()[k] by {}
    }
    if contains_any_of(&n, &hard) {
        "专业技术与硬技能"
    } else if contains_any_of(&n, &arch) {
        "系统设计与架构思考"
    } else if contains_any_of(&n, &eng) {
        "工程落地与质量调优"
    } else if contains_any_of(&n, &lead) {
        "项目协作与团队管理"
    } else if contains_any_of(&n, &gen) {
        "问题分析与通用素养"
    } else {
        "业务理解与行业实操"
    }
}

/// Every name maps onto a managed domain, and a managed domain maps onto itself.
pub proof fn lemma_top_domain_is_managed(name: Seq<char>)
    ensures
        domain_names().contains(top_domain_spec(name)),
        domain_names().contains(name) ==> top_domain_spec(name) == name,
{
    assert(domain_names()[0] == "专业技术与硬技能"@);
    assert(domain_names()[1] == "系统设计与架构思考"@);
    assert(domain_names()[2] == "业务理解与行业实操"@);
    assert(domain_names()[3] == "工程落地与质量调优"@);
    assert(domain_names()[4] == "项目协作与团队管理"@);
    assert(domain_names()[5] == "问题分析与通用素养"@);
}

/// One dimension of the capability radar: a top-level domain.
#[derive(Debug, Clone, PartialEq)]
pub struct RadarDimension {
    pub key: String,
    pub name: String,
    pub score: i32,
    pub question_count: i64,
}

/// Integer division rounding toward zero (Rust's `/` on integers).
pub open spec fn trunc_div(a: int, b: int) -> int {
    if a >= 0 {
        a / b
    } else {
        -((-a) / b)
    }
}

/// Sum of the radar scores.
pub open spec fn score_sum(r: Seq<RadarDimension>) -> int
    decreases r.len(),
{
    if r.len() == 0 {
        0
    } else {
        score_sum(r.drop_last()) + r.last().score
    }
}

proof fn lemma_score_sum_bounds(r: Seq<RadarDimension>)
    ensures
        i32::MIN * r.len() <= score_sum(r) <= i32::MAX * r.len(),
    decreases r.len(),
{
    if r.len() > 0 {
        lemma_score_sum_bounds(r.drop_last());
    }
}

/// The overall proficiency: the mean radar score rounded toward zero (0 without dimensions).
pub fn overall_proficiency(radar: &[RadarDimension]) -> (p: i32)
    requires
        radar@.len() <= u32::MAX,
    ensures
        p == (if radar@.len() == 0 {
            0
        } else {
            trunc_div(score_sum(radar@), radar@.len() as int)
        }),
{
    if radar.len() == 0 {
        return 0;
    }
    let mut sum: i64 = 0;
    let mut i: usize = 0;
    while i < radar.len()
        invariant
            i <= radar@.len(),
            radar@.len() <= u32::MAX,
            sum == score_sum(radar@.take(i as int)),
            i32::MIN * i <= sum <= i32::MAX * i,
        decreases radar@.len() - i,
    {
        proof {
            assert(radar@.take(i + 1).drop_last() =~= radar@.take(i as int));
            assert(i32::MAX * i <= i32::MAX * (u32::MAX as int)) by (nonlinear_arith)
                requires
                    i <= u32::MAX,
            ;
            assert(i32::MIN * i >= i32::MIN * (u32::MAX as int)) by (nonlinear_arith)
                requires
                    i <= u32::MAX,
            ;
        }
        sum = sum + radar[i].score as i64;
        i += 1;
    }
    assert(radar@.take(radar@.len() as int) =~= radar@);
    let n = radar.len() as i64;
    let q = sum / n;
    proof {
        let s = sum as int;
        let ni = n as int;
        assert(ni >= 1);
        if s >= 0 {
            assert(s / ni <= i32::MAX) by (nonlinear_arith)
                requires
                    0 <= s <= i32::MAX * ni,
                    ni >= 1,
            ;
        } else {
            assert((-s) / ni <= -(i32::MIN as int)) by (nonlinear_arith)
                requires
                    0 < -s <= -(i32::MIN * ni),
                    ni >= 1,
            ;
        }
    }
    q as i32
}

/// What a question contributes to the skill statistics.
#[derive(Debug, Clone, PartialEq)]
pub struct QuestionSkills {
    /// Score of the latest analysis.
    pub score: Option<i32>,
    /// Latest self assessment.
    pub last_result: Option<String>,
    /// The question's skills: `(id, path)`.
    pub skills: Vec<(i64, String)>,
}

pub struct QuestionSkillsV {
    pub score: Option<i32>,
    pub last_result: Option<Seq<char>>,
    pub skills: Seq<(i64, Seq<char>)>,
}

impl View for QuestionSkills {
    type V = QuestionSkillsV;

    open spec fn view(&self) -> QuestionSkillsV {
        QuestionSkillsV {
            score: self.score,
            last_result: opt_view(self.last_result),
            skills: self.skills@.map_values(|p: (i64, String)| (p.0, p.1@)),
        }
    }
}

/// Some skill of the question lies in the subtree of the node.
pub open spec fn touches_subtree(q: QuestionSkillsV, id: i64, path: Seq<char>) -> bool {
    exists|k: int| 0 <= k < q.skills.len() && in_subtree_spec(id, path, #[trigger] q.skills[k].0, q.skills[k].1)
}

/// Statistics of the questions under a skill node: how many, their scores,
/// and how many were last remembered or forgotten.
#[derive(Debug, Clone, PartialEq)]
pub struct SubtreeStats {
    pub question_count: usize,
    pub scores: Vec<i32>,
    pub remembered: usize,
    pub forgotten: usize,
}

/// The questions under the node, in order.
pub open spec fn under(qs: Seq<QuestionSkillsV>, id: i64, path: Seq<char>) -> Seq<QuestionSkillsV>
    decreases qs.len(),
{
    if qs.len() == 0 {
        Seq::empty()
    } else {
        under(qs.drop_last(), id, path) + if touches_subtree(qs.last(), id, path) {
            seq![qs.last()]
        } else {
            Seq::empty()
        }
    }
}

/// The scores present among questions, in order.
pub open spec fn scores_of(qs: Seq<QuestionSkillsV>) -> Seq<i32>
    decreases qs.len(),
{
    if qs.len() == 0 {
        Seq::empty()
    } else {
        scores_of(qs.drop_last()) + match qs.last().score {
            Some(s) => seq![s],
            None => Seq::empty(),
        }
    }
}

/// Number of questions whose last self assessment is `result`.
pub open spec fn result_count(qs: Seq<QuestionSkillsV>, result: Seq<char>) -> nat
    decreases qs.len(),
{
    if qs.len() == 0 {
        0
    } else {
        result_count(qs.drop_last(), result) + if qs.last().last_result == Some(result) {
            1nat
        } else {
            0nat
        }
    }
}

fn touches(q: &QuestionSkills, id: i64, path: &str) -> (r: bool)
    ensures
        r == touches_subtree(q@, id, path@),
{
    let ghost sv = q@.skills;
    let mut k: usize = 0;
    while k < q.skills.len()
        invariant
            k <= q.skills@.len(),
            sv == q.skills@.map_values(|p: (i64, String)| (p.0, p.1@)),
            forall|t: int| 0 <= t < k ==> !in_subtree_spec(id, path@, #[trigger] sv[t].0, sv[t].1),
        decreases q.skills@.len() - k,
    {
        assert(sv[k as int] == (q.skills@[k as int].0, q.skills@[k as int].1@));
        if is_in_subtree(id, path, q.skills[k].0, q.skills[k].1.as_str()) {
            assert(q@.skills[k as int] == sv[k as int]);
            assert(in_subtree_spec(id, path@, q@.skills[k as int].0, q@.skills[k as int].1));
            return true;
        }
        k += 1;
    }
    false
}

/// The statistics of the questions under the skill node `id` / `path`.
pub fn subtree_stats(id: i64, path: &str, questions: &[QuestionSkills]) -> (r: SubtreeStats)
    ensures
        r.question_count == under(questions@.map_values(|q: QuestionSkills| q@), id, path@).len(),
        r.scores@ == scores_of(under(questions@.map_values(|q: QuestionSkills| q@), id, path@)),
        r.remembered == result_count(under(questions@.map_values(|q: QuestionSkills| q@), id, path@), "remembered"@),
        r.forgotten == result_count(under(questions@.map_values(|q: QuestionSkills| q@), id, path@), "forgotten"@),
{
    let ghost qv = questions@.map_values(|q: QuestionSkills| q@);
    let mut count: usize = 0;
    let mut scores: Vec<i32> = Vec::new();
    let mut remembered: usize = 0;
    let mut forgotten: usize = 0;
    let mut i: usize = 0;
    while i < questions.len()
        invariant
            i <= questions@.len(),
            qv == questions@.map_values(|q: QuestionSkills| q@),
            count == under(qv.take(i as int), id, path@).len(),
            count <= i,
            scores@ == scores_of(under(qv.take(i as int), id, path@)),
            remembered == result_count(under(qv.take(i as int), id, path@), "remembered"@),
            forgotten == result_count(under(qv.take(i as int), id, path@), "forgotten"@),
            remembered <= count,
            forgotten <= count,
        decreases questions@.len() - i,
    {
        let ghost pre = under(qv.take(i as int), id, path@);
        proof {
            assert(qv.take(i + 1).drop_last() =~= qv.take(i as int));
            assert(qv.take(i + 1).last() == questions@[i as int]@);
        }
        let q = &questions[i];
        if touches(q, id, path) {
            let ghost post = pre.push(q@);
            assert(under(qv.take(i + 1), id, path@) =~= post);
            assert(post.drop_last() =~= pre);
            count += 1;
            if let Some(s) = q.score {
                scores.push(s);
            }
            proof {
                reveal_strlit("remembered");
                reveal_strlit("forgotten");
                assert("remembered"@ != "forgotten"@) by {
                    assert("remembered"@[0] != "forgotten"@[0]);
                }
            }
            match &q.last_result {
                Some(res) => {
                    if str_eq(res.as_str(), "remembered") {
                        remembered += 1;
                    } else if str_eq(res.as_str(), "forgotten") {
                        forgotten += 1;
                    }
                },
                None => {},
            }
            proof {
                reveal_strlit("remembered");
                reveal_strlit("forgotten");
            }
        } else {
            assert(under(qv.take(i + 1), id, path@) =~= pre);
        }
        i += 1;
    }
    assert(qv.take(questions@.len() as int) =~= qv);
    SubtreeStats { question_count: count, scores, remembered, forgotten }
}

/// The question types of the capability matrix.
pub const QUESTION_TYPES: [&'static str; 7] = [
    "motivation_culture_fit",
    "experience_track_record",
    "professional_knowledge",
    "scenario_case",
    "practice_execution",
    "problem_solving_resilience",
    "collaboration",
];

/// A known question type is kept; anything else counts as professional knowledge.
pub open spec fn question_type_spec(t: Option<Seq<char>>) -> Seq<char> {
    match t {
        Some(x) => if (exists|k: int| 0 <= k < 7 && x == (#[trigger] QUESTION_TYPES@[k])@) {
            x
        } else {
            "professional_knowledge"@
        },
        None => "professional_knowledge"@,
    }
}

/// Normalises a question type for the capability matrix.
/// Every one of the seven matrix columns keeps its own questions: a type is
/// kept exactly when it is one of motivation_culture_fit,
/// experience_track_record, professional_knowledge, scenario_case,
/// practice_execution, problem_solving_resilience or collaboration; any other
/// type, and a missing one, counts as professional_knowledge.
pub proof fn lemma_question_type_columns(t: Seq<char>)
    ensures
        question_type_spec(Some(t)) == if t == "motivation_culture_fit"@ || t == "experience_track_record"@ || t
            == "professional_knowledge"@ || t == "scenario_case"@ || t == "practice_execution"@ || t
            == "problem_solving_resilience"@ || t == "collaboration"@ {
            t
        } else {
            "professional_knowledge"@
        },
        question_type_spec(None) == "professional_knowledge"@,
{
    let q = QUESTION_TYPES@;
    assert(q[0]@ == "motivation_culture_fit"@);
    assert(q[1]@ == "experience_track_record"@);
    assert(q[2]@ == "professional_knowledge"@);
    assert(q[3]@ == "scenario_case"@);
    assert(q[4]@ == "practice_execution"@);
    assert(q[5]@ == "problem_solving_resilience"@);
    assert(q[6]@ == "collaboration"@);
    if exists|k: int| 0 <= k < 7 && t == (#[trigger] QUESTION_TYPES@[k])@ {
        let k = choose|k: int| 0 <= k < 7 && t == (#[trigger] QUESTION_TYPES@[k])@;
        assert(k == 0 || k == 1 || k == 2 || k == 3 || k == 4 || k == 5 || k == 6);
    }
}

pub fn question_type_of(t: Option<&str>) -> (r: &'static str)
    ensures
        r@ == question_type_spec(
            match t {
                Some(x) => Some(x@),
                None => None,
            },
        ),
{
    if let Some(x) = t {
        let mut k: usize = 0;
        while k < 7
            invariant
                k <= 7,
                t == Some(x),
                forall|j: int| 0 <= j < k ==> x@ != (#[trigger] QUESTION_TYPES@[j])@,
            decreases 7 - k,
        {
            if str_eq(QUESTION_TYPES[k], x) {
                assert(x@ == QUESTION_TYPES@[k as int]@);
                return QUESTION_TYPES[k];
            }
            k += 1;
        }
    }
    "professional_knowledge"
}

/// A top-level domain of the skill tree.
#[derive(Debug, Clone, PartialEq)]
pub struct DomainRoot {
    pub id: i64,
    pub name: String,
    pub path: String,
}

/// Some skill `(id, path)` lies under the root.
pub open spec fn root_touched(root: DomainRoot, skills: Seq<(i64, Seq<char>)>) -> bool {
    exists|k: int| 0 <= k < skills.len() && in_subtree_spec(root.id, root.path@, #[trigger] skills[k].0, skills[k].1)
}

/// Names of the roots touched by the skills, in root order.
pub open spec fn touched_roots(roots: Seq<DomainRoot>, skills: Seq<(i64, Seq<char>)>) -> Seq<Seq<char>>
    decreases roots.len(),
{
    if roots.len() == 0 {
        Seq::empty()
    } else {
        touched_roots(roots.drop_last(), skills) + if root_touched(roots.last(), skills) {
            seq![roots.last().name@]
        } else {
            Seq::empty()
        }
    }
}

/// The matrix domains of a question: the touched roots, or the catch-all
/// domain when none is.
pub open spec fn matrix_domains_spec(roots: Seq<DomainRoot>, skills: Seq<(i64, Seq<char>)>) -> Seq<Seq<char>> {
    if touched_roots(roots, skills).len() == 0 {
        seq!["通用与其他"@]
    } else {
        touched_roots(roots, skills)
    }
}

/// The matrix domains of a question with the given skills.
pub fn matrix_domains(roots: &[DomainRoot], skills: &[(i64, String)]) -> (r: Vec<String>)
    ensures
        r@.map_values(|x: String| x@) == matrix_domains_spec(roots@, skills@.map_values(|p: (i64, String)| (p.0, p.1@))),
{
    let q = QuestionSkills { score: None, last_result: None, skills: copy_skills(skills) };
    let ghost sv = skills@.map_values(|p: (i64, String)| (p.0, p.1@));
    assert(q@.skills =~= sv);
    let mut out: Vec<String> = Vec::new();
    let mut i: usize = 0;
    while i < roots.len()
        invariant
            i <= roots@.len(),
            q@.skills == sv,
            out@.map_values(|x: String| x@) == touched_roots(roots@.take(i as int), sv),
        decreases roots@.len() - i,
    {
        proof {
            assert(roots@.take(i + 1).drop_last() =~= roots@.take(i as int));
            assert(roots@.take(i + 1).last() == roots@[i as int]);
        }
        let ghost ov = out@.map_values(|x: String| x@);
        let root = &roots[i];
        if touches(&q, root.id, root.path.as_str()) {
            let nm = root.name.clone();
            out.push(nm);
            assert(out@.map_values(|x: String| x@) =~= ov.push(root.name@));
        } else {
            assert(out@.map_values(|x: String| x@) =~= ov);
        }
        i += 1;
    }
    assert(roots@.take(roots@.len() as int) =~= roots@);
    if out.len() == 0 {
        let mut other: Vec<String> = Vec::new();
        other.push(owned("通用与其他"));
        assert(other@.map_values(|x: String| x@) =~= seq!["通用与其他"@]);
        return other;
    }
    out
}

fn copy_skills(skills: &[(i64, String)]) -> (r: Vec<(i64, String)>)
    ensures
        r@.map_values(|p: (i64, String)| (p.0, p.1@)) == skills@.map_values(|p: (i64, String)| (p.0, p.1@)),
{
    let mut r: Vec<(i64, String)> = Vec::new();
    let mut i: usize = 0;
    while i < skills.len()
        invariant
            i <= skills@.len(),
            r@.map_values(|p: (i64, String)| (p.0, p.1@)) == skills@.take(i as int).map_values(
                |p: (i64, String)| (p.0, p.1@),
            ),
        decreases skills@.len() - i,
    {
        let ghost rv = r@.map_values(|p: (i64, String)| (p.0, p.1@));
        let (id, path) = &skills[i];
        r.push((*id, path.clone()));
        proof {
            assert(r@.map_values(|p: (i64, String)| (p.0, p.1@)) =~= rv.push((skills@[i as int].0, skills@[i as int].1@)));
            assert(skills@.take(i + 1).map_values(|p: (i64, String)| (p.0, p.1@)) =~= skills@.take(i as int).map_values(
                |p: (i64, String)| (p.0, p.1@),
            ).push((skills@[i as int].0, skills@[i as int].1@)));
        }
        i += 1;
    }
    assert(skills@.take(skills@.len() as int) =~= skills@);
    r
}

/// A question as the capability matrix sees it.
#[derive(Debug, Clone, PartialEq)]
pub struct MatrixItem {
    /// Its matrix domains ([`matrix_domains`]).
    pub domains: Vec<String>,
    /// Its normalised type ([`question_type_of`]).
    pub question_type: String,
    pub score: Option<i32>,
    pub difficulty: i32,
    pub last_result: Option<String>,
}

pub struct MatrixItemV {
    pub domains: Seq<Seq<char>>,
    pub question_type: Seq<char>,
    pub score: Option<i32>,
    pub difficulty: i32,
    pub last_result: Option<Seq<char>>,
}

impl View for MatrixItem {
    type V = MatrixItemV;

    open spec fn view(&self) -> MatrixItemV {
        MatrixItemV {
            domains: self.domains@.map_values(|d: String| d@),
            question_type: self.question_type@,
            score: self.score,
            difficulty: self.difficulty,
            last_result: opt_view(self.last_result),
        }
    }
}

/// The aggregate of one matrix cell.
#[derive(Debug, Clone, PartialEq)]
pub struct CellStats {
    pub count: usize,
    pub scores: Vec<i32>,
    /// Difficulties clamped to 1..=5.
    pub difficulties: Vec<i32>,
    pub remembered: usize,
}

/// The entries of a cell: each item once per occurrence of the domain among
/// its domains, when its type is the cell's type.
pub open spec fn cell_entries(items: Seq<MatrixItemV>, domain: Seq<char>, qtype: Seq<char>) -> Seq<MatrixItemV>
    decreases items.len(),
{
    if items.len() == 0 {
        Seq::empty()
    } else {
        cell_entries(items.drop_last(), domain, qtype) + if items.last().question_type == qtype {
            item_copies(items.last(), items.last().domains, domain)
        } else {
            Seq::empty()
        }
    }
}

/// The item once per occurrence of the domain.
pub open spec fn item_copies(item: MatrixItemV, domains: Seq<Seq<char>>, domain: Seq<char>) -> Seq<MatrixItemV>
    decreases domains.len(),
{
    if domains.len() == 0 {
        Seq::empty()
    } else {
        item_copies(item, domains.drop_last(), domain) + if domains.last() == domain {
            seq![item]
        } else {
            Seq::empty()
        }
    }
}

/// `v` clamped to `lo..=hi`.
pub open spec fn clamp(v: int, lo: int, hi: int) -> int {
    if v < lo {
        lo
    } else if v > hi {
        hi
    } else {
        v
    }
}

/// The scores present among matrix entries.
pub open spec fn entry_scores(es: Seq<MatrixItemV>) -> Seq<i32>
    decreases es.len(),
{
    if es.len() == 0 {
        Seq::empty()
    } else {
        entry_scores(es.drop_last()) + match es.last().score {
            Some(v) => seq![v],
            None => Seq::empty(),
        }
    }
}

/// The clamped difficulties of matrix entries.
pub open spec fn entry_difficulties(es: Seq<MatrixItemV>) -> Seq<i32> {
    es.map_values(|e: MatrixItemV| clamp(e.difficulty as int, 1, 5) as i32)
}

/// Entries last remembered.
pub open spec fn entry_remembered(es: Seq<MatrixItemV>) -> nat
    decreases es.len(),
{
    if es.len() == 0 {
        0
    } else {
        entry_remembered(es.drop_last()) + if es.last().last_result == Some("remembered"@) {
            1nat
        } else {
            0nat
        }
    }
}

/// Aggregates one matrix cell (domain × question type).
pub fn cell_stats(items: &[MatrixItem], domain: &str, qtype: &str) -> (r: CellStats)
    ensures
        r.count == cell_entries(items@.map_values(|x: MatrixItem| x@), domain@, qtype@).len(),
        r.scores@ == entry_scores(cell_entries(items@.map_values(|x: MatrixItem| x@), domain@, qtype@)),
        r.difficulties@ == entry_difficulties(cell_entries(items@.map_values(|x: MatrixItem| x@), domain@, qtype@)),
        r.remembered == entry_remembered(cell_entries(items@.map_values(|x: MatrixItem| x@), domain@, qtype@)),
{
    let ghost iv = items@.map_values(|x: MatrixItem| x@);
    let mut scores: Vec<i32> = Vec::new();
    let mut difficulties: Vec<i32> = Vec::new();
    let mut remembered: usize = 0;
    let mut i: usize = 0;
    while i < items.len()
        invariant
            i <= items@.len(),
            iv == items@.map_values(|x: MatrixItem| x@),
            scores@ == entry_scores(cell_entries(iv.take(i as int), domain@, qtype@)),
            difficulties@ == entry_difficulties(cell_entries(iv.take(i as int), domain@, qtype@)),
            remembered == entry_remembered(cell_entries(iv.take(i as int), domain@, qtype@)),
            remembered <= difficulties@.len(),
        decreases items@.len() - i,
    {
        proof {
            assert(iv.take(i + 1).drop_last() =~= iv.take(i as int));
            assert(iv.take(i + 1).last() == items@[i as int]@);
        }
        let it = &items[i];
        let ghost itv = it@;
        let ghost base = cell_entries(iv.take(i as int), domain@, qtype@);
        if str_eq(it.question_type.as_str(), qtype) {
            let ghost dv = itv.domains;
            let mut k: usize = 0;
            while k < it.domains.len()
                invariant
                    k <= it.domains@.len(),
                    itv == it@,
                    dv == it.domains@.map_values(|d: String| d@),
                    scores@ == entry_scores(base + item_copies(itv, dv.take(k as int), domain@)),
                    difficulties@ == entry_difficulties(base + item_copies(itv, dv.take(k as int), domain@)),
                    remembered == entry_remembered(base + item_copies(itv, dv.take(k as int), domain@)),
                    remembered <= difficulties@.len(),
                decreases it.domains@.len() - k,
            {
                proof {
                    assert(dv.take(k + 1).drop_last() =~= dv.take(k as int));
                    assert(dv.take(k + 1).last() == it.domains@[k as int]@);
                }
                let ghost cur = base + item_copies(itv, dv.take(k as int), domain@);
                if str_eq(it.domains[k].as_str(), domain) {
                    let ghost nxt = cur.push(itv);
                    assert(base + item_copies(itv, dv.take(k + 1), domain@) =~= nxt);
                    assert(nxt.drop_last() =~= cur);
                    assert(entry_difficulties(nxt) =~= entry_difficulties(cur).push(
                        clamp(itv.difficulty as int, 1, 5) as i32,
                    ));
                    if let Some(v) = it.score {
                        scores.push(v);
                    }
                    let d = if it.difficulty < 1 {
                        1
                    } else if it.difficulty > 5 {
                        5
                    } else {
                        it.difficulty
                    };
                    difficulties.push(d);
                    let n = difficulties.len();
                    assert(remembered < n);
                    match &it.last_result {
                        Some(res) => {
                            if str_eq(res.as_str(), "remembered") {
                                remembered += 1;
                            }
                        },
                        None => {},
                    }
                } else {
                    assert(base + item_copies(itv, dv.take(k + 1), domain@) =~= cur);
                }
                k += 1;
            }
            assert(dv.take(dv.len() as int) =~= dv);
        } else {
            assert(cell_entries(iv.take(i + 1), domain@, qtype@) =~= base);
        }
        i += 1;
    }
    assert(iv.take(items@.len() as int) =~= iv);
    CellStats { count: difficulties.len(), scores, difficulties, remembered }
}

/// A tag merge group: aliases folded into a canonical tag, optionally moved
/// onto a skill.
#[derive(Debug, Clone, PartialEq)]
pub struct TagMergeGroupInput {
    pub canonical: String,
    pub aliases: Vec<String>,
    pub target_skill_id: Option<i64>,
}

pub struct TagMergeGroupView {
    pub canonical: Seq<char>,
    pub aliases: Seq<Seq<char>>,
    pub target_skill_id: Option<i64>,
}

impl View for TagMergeGroupInput {
    type V = TagMergeGroupView;

    open spec fn view(&self) -> TagMergeGroupView {
        TagMergeGroupView {
            canonical: self.canonical@,
            aliases: self.aliases@.map_values(|a: String| a@),
            target_skill_id: self.target_skill_id,
        }
    }
}

/// The aliases a group folds: trimmed, without blanks and without the
/// canonical name itself.
pub open spec fn merge_aliases(aliases: Seq<Seq<char>>, canonical: Seq<char>) -> Seq<Seq<char>>
    decreases aliases.len(),
{
    if aliases.len() == 0 {
        Seq::empty()
    } else {
        let a = trim(aliases.last());
        merge_aliases(aliases.drop_last(), canonical) + if a.len() > 0 && a != canonical {
            seq![a]
        } else {
            Seq::empty()
        }
    }
}

/// The groups a merge applies: canonical names trimmed, groups with a blank
/// canonical name skipped.
pub open spec fn merge_plan_spec(groups: Seq<TagMergeGroupView>) -> Seq<TagMergeGroupView>
    decreases groups.len(),
{
    if groups.len() == 0 {
        Seq::empty()
    } else {
        let g = groups.last();
        let c = trim(g.canonical);
        merge_plan_spec(groups.drop_last()) + if c.len() > 0 {
            seq![TagMergeGroupView { canonical: c, aliases: merge_aliases(g.aliases, c), target_skill_id: g.target_skill_id }]
        } else {
            Seq::empty()
        }
    }
}

fn group_aliases(aliases: &[String], canonical: &[char]) -> (r: Vec<String>)
    ensures
        r@.map_values(|a: String| a@) == merge_aliases(aliases@.map_values(|a: String| a@), canonical@),
{
    let ghost av = aliases@.map_values(|a: String| a@);
    let mut out: Vec<String> = Vec::new();
    let mut i: usize = 0;
    while i < aliases.len()
        invariant
            i <= aliases@.len(),
            av == aliases@.map_values(|a: String| a@),
            out@.map_values(|a: String| a@) == merge_aliases(av.take(i as int), canonical@),
        decreases aliases@.len() - i,
    {
        proof {
            assert(av.take(i + 1).drop_last() =~= av.take(i as int));
        }
        let ghost before = out@.map_values(|a: String| a@);
        let a = trim_chars(&chars_of(aliases[i].as_str()));
        if a.len() > 0 && !chars_eq(&a, canonical) {
            out.push(string_of(&a));
            assert(out@.map_values(|a: String| a@) =~= before.push(a@));
        }
        i += 1;
    }
    assert(av.take(av.len() as int) =~= av);
    out
}

/// Normalises the groups of a tag merge.
pub fn merge_plan(groups: &[TagMergeGroupInput]) -> (r: Vec<TagMergeGroupInput>)
    ensures
        r@.map_values(|g: TagMergeGroupInput| g@) == merge_plan_spec(
            groups@.map_values(|g: TagMergeGroupInput| g@),
        ),
{
    let ghost gv = groups@.map_values(|g: TagMergeGroupInput| g@);
    let mut out: Vec<TagMergeGroupInput> = Vec::new();
    let mut i: usize = 0;
    while i < groups.len()
        invariant
            i <= groups@.len(),
            gv == groups@.map_values(|g: TagMergeGroupInput| g@),
            out@.map_values(|g: TagMergeGroupInput| g@) == merge_plan_spec(gv.take(i as int)),
        decreases groups@.len() - i,
    {
        proof {
            assert(gv.take(i + 1).drop_last() =~= gv.take(i as int));
        }
        let ghost before = out@.map_values(|g: TagMergeGroupInput| g@);
        let g = &groups[i];
        let c = trim_chars(&chars_of(g.canonical.as_str()));
        if c.len() > 0 {
            let aliases = group_aliases(g.aliases.as_slice(), &c);
            let ng = TagMergeGroupInput { canonical: string_of(&c), aliases, target_skill_id: g.target_skill_id };
            out.push(ng);
            assert(out@.map_values(|g: TagMergeGroupInput| g@) =~= before.push(
                TagMergeGroupView { canonical: c@, aliases: merge_aliases(gv[i as int].aliases, c@), target_skill_id: gv[i as int].target_skill_id },
            ));
        }
        i += 1;
    }
    assert(gv.take(gv.len() as int) =~= gv);
    out
}

/// The counts of an applied tag merge.
#[derive(Debug, Clone, Copy, PartialEq, Eq, Default)]
pub struct TagMergeResult {
    /// Question–tag links moved onto canonical tags.
    pub remapped: u64,
    /// Alias tags absorbed and deleted.
    pub removed_tags: u64,
}

impl TagMergeResult {
    /// Counts one absorbed alias whose `moved` links were moved.
    pub fn record_alias(&mut self, moved: u64)
        requires
            old(self).removed_tags < u64::MAX,
            old(self).remapped + moved <= u64::MAX,
        ensures
            final(self).removed_tags == old(self).removed_tags + 1,
            final(self).remapped == old(self).remapped + moved,
    {
        self.removed_tags = self.removed_tags + 1;
        self.remapped = self.remapped + moved;
    }
}

/// Rank of a root in the skill tree: the position of the first managed domain
/// at or after `i` with its name, else 999 (other roots come last).
pub open spec fn rank_from(name: Seq<char>, i: int) -> nat
    decreases 6 - i,
{
    if i < 0 || i >= 6 {
        999
    } else if TOP_LEVEL_DOMAINS@[i].0@ == name {
        i as nat
    } else {
        rank_from(name, i + 1)
    }
}

/// The rank of a root named `name`.
pub fn domain_rank(name: &str) -> (r: usize)
    ensures
        r == rank_from(name@, 0),
{
    let mut i: usize = 0;
    while i < 6
        invariant
            i <= 6,
            rank_from(name@, 0) == rank_from(name@, i as int),
        decreases 6 - i,
    {
        if str_eq(TOP_LEVEL_DOMAINS[i].0, name) {
            return i;
        }
        i += 1;
    }
    999
}

/// Indices below `upto` of the names of rank `k`, in order.
pub open spec fn with_rank(names: Seq<Seq<char>>, k: nat, upto: int) -> Seq<usize>
    decreases upto,
{
    if upto <= 0 || upto > names.len() {
        Seq::empty()
    } else {
        with_rank(names, k, upto - 1) + if rank_from(names[upto - 1], 0) == k {
            seq![(upto - 1) as usize]
        } else {
            Seq::empty()
        }
    }
}

/// The order of the roots: the managed domains in their fixed order, then the
/// other roots; roots of equal rank keep their order (a stable sort by rank).
pub open spec fn root_order_spec(names: Seq<Seq<char>>) -> Seq<usize> {
    let n = names.len() as int;
    with_rank(names, 0, n) + with_rank(names, 1, n) + with_rank(names, 2, n) + with_rank(names, 3, n) + with_rank(
        names,
        4,
        n,
    ) + with_rank(names, 5, n) + with_rank(names, 999, n)
}

fn append_rank(names: &[String], k: usize, out: &mut Vec<usize>)
    ensures
        final(out)@ == old(out)@ + with_rank(names@.map_values(|s: String| s@), k as nat, names@.len() as int),
{
    let ghost nv = names@.map_values(|s: String| s@);
    let ghost base = out@;
    let mut i: usize = 0;
    while i < names.len()
        invariant
            i <= names@.len(),
            nv == names@.map_values(|s: String| s@),
            out@ == base + with_rank(nv, k as nat, i as int),
        decreases names@.len() - i,
    {
        if domain_rank(names[i].as_str()) == k {
            out.push(i);
            assert(out@ =~= base + with_rank(nv, k as nat, i + 1));
        } else {
            assert(with_rank(nv, k as nat, i + 1) =~= with_rank(nv, k as nat, i as int));
        }
        i += 1;
    }
}

/// Orders the roots of the skill tree by their names (indices into `names`).
pub fn root_order(names: &[String]) -> (r: Vec<usize>)
    ensures
        r@ == root_order_spec(names@.map_values(|s: String| s@)),
{
    let mut out: Vec<usize> = Vec::new();
    append_rank(names, 0, &mut out);
    append_rank(names, 1, &mut out);
    append_rank(names, 2, &mut out);
    append_rank(names, 3, &mut out);
    append_rank(names, 4, &mut out);
    append_rank(names, 5, &mut out);
    append_rank(names, 999, &mut out);
    assert(out@ =~= root_order_spec(names@.map_values(|s: String| s@)));
    out
}

/// The weakness of a skill: 100 without questions, else what its proficiency
/// leaves of 100 (at least 0).
pub fn weakness_index(question_count: i64, proficiency: i32) -> (r: i32)
    requires
        proficiency > i32::MIN + 100,
    ensures
        r == if question_count == 0 {
            100
        } else if 100 - proficiency < 0 {
            0
        } else {
            100 - proficiency
        },
{
    if question_count == 0 {
        100
    } else if 100 - proficiency < 0 {
        0
    } else {
        100 - proficiency
    }
}

proof fn lemma_rank_range(name: Seq<char>, i: int)
    requires
        0 <= i,
    ensures
        rank_from(name, i) < 6 || rank_from(name, i) == 999,
    decreases 6 - i,
{
    if i < 6 && TOP_LEVEL_DOMAINS@[i].0@ != name {
        lemma_rank_range(name, i + 1);
    }
}

proof fn lemma_with_rank_sizes(names: Seq<Seq<char>>, upto: int)
    requires
        0 <= upto <= names.len(),
    ensures
        with_rank(names, 0, upto).len() + with_rank(names, 1, upto).len() + with_rank(names, 2, upto).len()
            + with_rank(names, 3, upto).len() + with_rank(names, 4, upto).len() + with_rank(names, 5, upto).len()
            + with_rank(names, 999, upto).len() == upto,
    decreases upto,
{
    if upto > 0 {
        lemma_with_rank_sizes(names, upto - 1);
        lemma_rank_range(names[upto - 1], 0);
    }
}

proof fn lemma_with_rank_has(names: Seq<Seq<char>>, i: int, upto: int)
    requires
        0 <= i < upto <= names.len(),
    ensures
        with_rank(names, rank_from(names[i], 0), upto).contains(i as usize),
    decreases upto,
{
    let k = rank_from(names[i], 0);
    if upto - 1 == i {
        assert(with_rank(names, k, upto).last() == i as usize);
    } else {
        lemma_with_rank_has(names, i, upto - 1);
        let j = choose|j: int| 0 <= j < with_rank(names, k, upto - 1).len() && #[trigger] with_rank(names, k, upto - 1)[j] == i as usize;
        assert(with_rank(names, k, upto)[j] == i as usize);
    }
}

/// The order of the roots lists every root exactly once (as many entries as
/// roots, and each root among them).
pub proof fn lemma_root_order_complete(names: Seq<Seq<char>>)
    ensures
        root_order_spec(names).len() == names.len(),
        forall|i: usize| i < names.len() ==> #[trigger] root_order_spec(names).contains(i),
{
    let n = names.len() as int;
    lemma_with_rank_sizes(names, n);
    assert forall|i: usize| i < names.len() implies #[trigger] root_order_spec(names).contains(i) by {
        lemma_with_rank_has(names, i as int, n);
        lemma_rank_range(names[i as int], 0);
        let k = rank_from(names[i as int], 0);
        let w = with_rank(names, k, n);
        let j = choose|j: int| 0 <= j < w.len() && #[trigger] w[j] == i;
        let a = with_rank(names, 0, n);
        let b = with_rank(names, 1, n);
        let c = with_rank(names, 2, n);
        let d = with_rank(names, 3, n);
        let e = with_rank(names, 4, n);
        let f = with_rank(names, 5, n);
        let g = with_rank(names, 999, n);
        let all = a + b + c + d + e + f + g;
        assert(all == root_order_spec(names));
        let off: int = if k == 0 {
            0
        } else if k == 1 {
            a.len() as int
        } else if k == 2 {
            (a.len() + b.len()) as int
        } else if k == 3 {
            (a.len() + b.len() + c.len()) as int
        } else if k == 4 {
            (a.len() + b.len() + c.len() + d.len()) as int
        } else if k == 5 {
            (a.len() + b.len() + c.len() + d.len() + e.len()) as int
        } else {
            (a.len() + b.len() + c.len() + d.len() + e.len() + f.len()) as int
        };
        assert(all[off + j] == i);
    }
}

} // verus!
