use beview::json::parse_json;
use beview::routes::resume::render_markdown;

#[test]
fn absent_resume_renders_default_title() {
    assert_eq!(render_markdown(None), "# 简历\n");
}

#[test]
fn full_resume_renders_every_section() {
    let doc = parse_json(
        r#"{
        "name": " 张三 ",
        "summary": "五年后端",
        "gender": "男", "age": "", "phone": "138", "email": "a@b.c",
        "intent_position": "后端", "intent_salary": "30k",
        "education": [{"school": "清华", "degree": "硕士"}, {"school": "", "degree": "本科"}, {}],
        "experience": [{"company": "字节", "title": "工程师", "period": "2020-2024",
                        "responsibilities": ["写代码", "  ", 3], "achievements": ["上线"]},
                       {"title": "实习"}],
        "projects": [{"name": "网关", "detail": "高并发"}, {"detail": "无名"}],
        "skills": ["Rust", " Go ", ""],
        "certificates": [{"name": "CET6", "date": "2019"}, {"date": "2020"}, {}],
        "self_evaluation": "靠谱",
        "links": [{"label": "GitHub", "url": "https://g.h"}, {"url": "https://x.y"}, {"label": "博客"}, {}]
    }"#,
    )
    .unwrap();
    let md = render_markdown(Some(&doc));
    let expected = "# 张三\n\
\n> 五年后端\n\
\n男 ｜ 138 ｜ a@b.c\n\
\n**求职意向**：后端 · 30k\n\
\n## 教育经历\n- 清华 · 硕士\n- 本科\n-\n\
\n## 工作经历\n### 字节 · 工程师  \n2020-2024\n职责：\n- 写代码\n业绩：\n- 上线\n### 实习  \n\
\n## 项目经历\n### 网关\n高并发\n\n无名\n\n\
\n## 技能特长\nRust、Go\n\
\n## 证书荣誉\n- CET6（2019）\n- 2020\n\
\n## 自我评价\n靠谱\n\
\n## 相关链接\n- [GitHub](https://g.h)\n- https://x.y\n- 博客\n";
    assert_eq!(md, expected);
}

#[test]
fn empty_arrays_and_non_objects_are_skipped() {
    let doc = parse_json(r#"{"name":"","education":[],"skills":"Rust","links":[]}"#).unwrap();
    assert_eq!(render_markdown(Some(&doc)), "# 简历\n");
    let not_object = parse_json("[1,2]").unwrap();
    assert_eq!(render_markdown(Some(&not_object)), "# 简历\n");
}
