use usch::reload::ReloadCoordinator;
use usch::Shader;

#[test]
fn successful_recompile_swaps_the_payload() {
    let mut coordinator = ReloadCoordinator::new(String::from("pipeline-1"));
    coordinator.apply(Ok(String::from("pipeline-2")));
    assert_eq!("pipeline-2", coordinator.active().as_str());
    assert!(coordinator.diagnostic().is_none());
}

#[test]
fn failed_recompile_keeps_the_previous_payload() {
    let mut coordinator = ReloadCoordinator::new(String::from("pipeline-1"));
    coordinator.apply(Err(String::from("syntax error on line 3")));
    assert_eq!("pipeline-1", coordinator.active().as_str());
    assert_eq!(Some(String::from("syntax error on line 3")), *coordinator.diagnostic());
    // A later fix swaps and clears the diagnostic.
    coordinator.apply(Ok(String::from("pipeline-2")));
    assert_eq!("pipeline-2", coordinator.active().as_str());
    assert!(coordinator.diagnostic().is_none());
}

#[test]
fn native_shader_source_passes_through() {
    let source = "@fragment fn main() {}";
    let shader = Shader::Wgsl(source);
    assert_eq!(source, shader.into_wgsl().unwrap());
}

#[test]
fn glsl_shader_is_translated() {
    let source = "#version 450\nlayout(location = 0) out vec4 color;\nvoid main() { color = vec4(1.0); }\n";
    let shader = Shader::Glsl(source);
    let wgsl = shader.into_wgsl().unwrap();
    // The translation is into the native shading language, not an echo.
    assert_ne!(source, wgsl);
    assert!(wgsl.contains("fn main"));
}

#[test]
fn broken_glsl_reports_a_diagnostic() {
    let shader = Shader::Glsl("void main( {");
    assert!(shader.into_wgsl().is_err());
}

#[test]
fn debouncer_collapses_rapid_writes() {
    let mut d = usch::reload::Debouncer::new(1_000_000_000);
    assert!(!d.poll(0));
    d.note(100);
    assert!(!d.poll(500_000_000));
    // A second write inside the window re-arms it.
    d.note(900_000_000);
    assert!(!d.poll(1_000_000_100));
    // One quiet window after the last write, it fires exactly once.
    assert!(d.poll(1_900_000_000));
    assert!(!d.poll(2_900_000_000));
}
