use beview::error::AppError;
use beview::routes::personas::{custom_persona_access, persona_name, persona_prompt};

#[test]
fn persona_rules() {
    assert_eq!(persona_name("  严厉官 "), Ok("严厉官".to_string()));
    let long = "名".repeat(101);
    assert_eq!(persona_name(&long), Err(AppError::BadRequest("persona 名称必填且不超过 100 字".into())));
    assert_eq!(persona_name(&"名".repeat(100)), Ok("名".repeat(100)));
    assert_eq!(persona_name("  "), Err(AppError::BadRequest("persona 名称必填且不超过 100 字".into())));
    assert_eq!(persona_prompt(" p "), Ok("p".to_string()));
    assert_eq!(persona_prompt(" "), Err(AppError::BadRequest("persona_prompt 不能为空".into())));
    assert_eq!(custom_persona_access(None, 1), Err(AppError::NotFound));
    assert_eq!(custom_persona_access(Some((true, None)), 1), Err(AppError::Forbidden));
    assert_eq!(custom_persona_access(Some((false, Some(2))), 1), Err(AppError::Forbidden));
    assert_eq!(custom_persona_access(Some((false, Some(1))), 1), Ok(()));
}
