use aurora::interpolation::{contains_variables, interpolate, interpolate_map, interpolate_vec, InterpolationContext};
use aurora::{AuroraError, StrMap};

#[test]
fn test_simple_variable() {
    let ctx = InterpolationContext::new().with_variable("name", "world");
    let result = interpolate("Hello, ${var.name}!", &ctx).unwrap();
    assert_eq!(result, "Hello, world!");
}

#[test]
fn test_shorthand_variable() {
    let ctx = InterpolationContext::new().with_variable("name", "world");
    let result = interpolate("Hello, ${name}!", &ctx).unwrap();
    assert_eq!(result, "Hello, world!");
}

#[test]
fn test_multiple_variables() {
    let ctx = InterpolationContext::new()
        .with_variable("first", "Hello")
        .with_variable("second", "World");
    let result = interpolate("${var.first}, ${var.second}!", &ctx).unwrap();
    assert_eq!(result, "Hello, World!");
}

#[test]
fn test_environment_variable() {
    let ctx = InterpolationContext::new().with_env_var("AURORA_TEST_VAR", "test_value");
    let result = interpolate("Value: ${env.AURORA_TEST_VAR}", &ctx).unwrap();
    assert_eq!(result, "Value: test_value");
}

#[test]
fn test_beam_name() {
    let ctx = InterpolationContext::new().with_beam_name("build");
    let result = interpolate("Running ${beam.name}", &ctx).unwrap();
    assert_eq!(result, "Running build");
}

#[test]
fn test_escaped_dollar() {
    let ctx = InterpolationContext::new();
    let result = interpolate("Price: $$100", &ctx).unwrap();
    assert_eq!(result, "Price: $100");
}

#[test]
fn test_no_interpolation() {
    let ctx = InterpolationContext::new();
    let result = interpolate("No variables here", &ctx).unwrap();
    assert_eq!(result, "No variables here");
}

#[test]
fn test_undefined_variable() {
    let ctx = InterpolationContext::new();
    let result = interpolate("${var.undefined}", &ctx);
    assert!(result.is_err());
}

#[test]
fn test_undefined_env_variable() {
    let ctx = InterpolationContext::new();
    let result = interpolate("${env.AURORA_DEFINITELY_NOT_SET_12345}", &ctx);
    assert!(result.is_err());
}

#[test]
fn test_contains_variables() {
    assert!(contains_variables("${var.name}"));
    assert!(contains_variables("prefix ${var.name} suffix"));
    assert!(!contains_variables("no variables"));
    assert!(!contains_variables("just a $ sign"));
    assert!(!contains_variables("$$escaped"));
}

#[test]
fn test_interpolate_vec() {
    let ctx = InterpolationContext::new().with_variable("name", "test");
    let vec = vec!["${var.name}".to_string(), "static".to_string()];
    let result = interpolate_vec(&vec, &ctx).unwrap();
    assert_eq!(result, vec!["test".to_string(), "static".to_string()]);
}

#[test]
fn test_interpolate_map() {
    let ctx = InterpolationContext::new().with_variable("val", "replaced");
    let mut map = StrMap::new();
    map.insert("key".to_string(), "${var.val}".to_string());
    let result = interpolate_map(&map, &ctx).unwrap();
    assert_eq!(result.get("key").unwrap(), "replaced");
}

#[test]
fn test_extra_context() {
    let ctx = InterpolationContext::new().with_extra("custom", "value");
    let result = interpolate("${ctx.custom}", &ctx).unwrap();
    assert_eq!(result, "value");
}

#[test]
fn test_mixed_interpolation() {
    let ctx = InterpolationContext::new()
        .with_env_var("AURORA_MIX_TEST", "env_val")
        .with_variable("var_val", "beamfile_val")
        .with_beam_name("my_beam");
    let result = interpolate(
        "var=${var.var_val}, env=${env.AURORA_MIX_TEST}, beam=${beam.name}",
        &ctx,
    )
    .unwrap();
    assert_eq!(result, "var=beamfile_val, env=env_val, beam=my_beam");
}

#[test]
fn double_dollar_is_one_dollar_in_any_context() {
    let empty = InterpolationContext::new();
    let rich = InterpolationContext::new()
        .with_variable("x", "v")
        .with_beam_name("b")
        .with_extra("k", "w");
    assert_eq!(interpolate("$$", &empty).unwrap(), "$");
    assert_eq!(interpolate("$$", &rich).unwrap(), "$");
}

#[test]
fn variable_reference_takes_its_value() {
    let ctx = InterpolationContext::new().with_variable("x", "v");
    assert_eq!(interpolate("${var.x}", &ctx).unwrap(), "v");
}

#[test]
fn undefined_variable_is_an_interpolation_error() {
    let ctx = InterpolationContext::new();
    let result = interpolate("${var.undefined}", &ctx);
    assert!(matches!(result, Err(AuroraError::Interpolation { .. })));
}

#[test]
fn text_without_references_is_unchanged() {
    let rich = InterpolationContext::new()
        .with_variable("name", "v")
        .with_beam_name("b");
    for s in ["plain", "a $ b", "cost: 5$", "{not} a ref", ""] {
        assert!(!contains_variables(s));
        assert_eq!(interpolate(s, &rich).unwrap(), s);
    }
    for s in ["${name}", "x ${var.name} y"] {
        assert!(contains_variables(s));
        assert!(interpolate(s, &InterpolationContext::new()).is_err());
        assert_ne!(interpolate(s, &rich).unwrap(), s);
    }
}

#[test]
fn malformed_references_fail() {
    let ctx = InterpolationContext::new().with_variable("a", "1");
    assert!(matches!(interpolate("${}", &ctx), Err(AuroraError::Interpolation { .. })));
    assert!(matches!(interpolate("${a-b}", &ctx), Err(AuroraError::Interpolation { .. })));
    assert!(matches!(interpolate("${beam.name}", &ctx), Err(AuroraError::Interpolation { .. })));
    assert!(matches!(interpolate("${ctx.missing}", &ctx), Err(AuroraError::Interpolation { .. })));
    assert_eq!(interpolate("cost $5 and ${a}", &ctx).unwrap(), "cost $5 and 1");
}
