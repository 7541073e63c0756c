use bones3::block::BasicBlock;
use bones3::plugin::Bones3Plugin;

#[test]
fn plugin_marker_reports_its_maximum_radius() {
    let plugin: Bones3Plugin<8, BasicBlock> = Bones3Plugin::new();
    assert_eq!(plugin.max_radius(), 8);
    let wide: Bones3Plugin<255, BasicBlock> = Bones3Plugin::default();
    assert_eq!(wide.max_radius(), 255);
}
