use beview::skill_query::{is_in_subtree, subtree_condition_sql, subtree_multi_condition_sql};
use beview::skill_service::{match_to_system_top_domain, TOP_LEVEL_DOMAINS};

#[test]
fn subtree_membership() {
    assert!(is_in_subtree(1, "/a", 1, ""));
    assert!(is_in_subtree(1, "/a", 2, "/a/b"));
    assert!(is_in_subtree(1, "/a/", 2, "/a/b"));
    assert!(!is_in_subtree(1, "/a", 2, "/ab"));
    assert!(!is_in_subtree(1, "", 2, "/a/b"));
    assert!(!is_in_subtree(1, "/a", 2, ""));
    assert!(!is_in_subtree(1, "/a/b", 2, "/a"));
}

#[test]
fn single_condition_sql_text() {
    let sql = subtree_condition_sql("q", "$1", "$2", "NULL");
    assert!(sql.starts_with("EXISTS("));
    assert!(sql.contains("qs.question_id = q.id"));
    assert!(sql.contains("SELECT q.skill_id WHERE q.skill_id IS NOT NULL"));
    assert!(sql.contains("WHERE dom.user_id = $1"));
    assert!(sql.contains("AND (($2::bigint IS NULL OR dom.id = $2) AND (NULL::text IS NULL OR dom.name = NULL OR dom.name ILIKE '%'||NULL||'%'))"));
    assert!(sql.contains("s.path LIKE dom.path || '/%'"));
    assert!(sql.ends_with(")"));
}

#[test]
fn multi_condition_sql_text() {
    let sql = subtree_multi_condition_sql("qq", "$1", "$2", "$3", "$4");
    assert!(sql.contains("qs.question_id = qq.id"));
    assert!(sql.contains("($2::bigint IS NOT NULL AND dom.id = $2) OR ($3::bigint[] IS NOT NULL AND dom.id = ANY($3)) OR ($4::text[] IS NOT NULL AND dom.name = ANY($4))"));
}

#[test]
fn managed_domains_map_to_themselves() {
    for (name, _, _) in TOP_LEVEL_DOMAINS {
        assert_eq!(match_to_system_top_domain(name), name);
    }
}

#[test]
fn other_roots_map_by_keywords() {
    assert_eq!(match_to_system_top_domain("Rust 语言"), "专业技术与硬技能");
    assert_eq!(match_to_system_top_domain("分布式一致性"), "系统设计与架构思考");
    assert_eq!(match_to_system_top_domain("Docker 部署"), "工程落地与质量调优");
    assert_eq!(match_to_system_top_domain("团队带教"), "项目协作与团队管理");
    assert_eq!(match_to_system_top_domain("逻辑思维"), "问题分析与通用素养");
    assert_eq!(match_to_system_top_domain("电商运营"), "业务理解与行业实操");
    // keyword order: a hard-skill word wins over an architecture word
    assert_eq!(match_to_system_top_domain("后端架构"), "专业技术与硬技能");
}
