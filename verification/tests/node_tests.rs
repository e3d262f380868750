use espectro::node::{NodeCategory, ParameterDescriptor};

#[test]
fn test_parameter_clamp() {
    let param = ParameterDescriptor::new("gain", -24000000, 24000000, 0, "dB", "Gain");
    assert_eq!(param.clamp(0), 0);
    assert_eq!(param.clamp(30000000), 24000000);
    assert_eq!(param.clamp(-30000000), -24000000);
}

#[test]
fn test_node_category() {
    let category = NodeCategory::Effect;
    assert_eq!(category, NodeCategory::Effect);
}
