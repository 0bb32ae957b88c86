use neura::capability::{DeviceType, PowerPreference};

#[test]
fn a_power_class_ranks_hardware_by_its_preference() {
    let performance = PowerPreference::HighPerformance;
    let power = PowerPreference::LowPower;
    assert!(DeviceType::Discrete.rank(performance) > DeviceType::Integrated.rank(performance));
    assert!(DeviceType::Integrated.rank(performance) > DeviceType::Virtual.rank(performance));
    assert!(DeviceType::Virtual.rank(performance) > DeviceType::Cpu.rank(performance));
    assert!(DeviceType::Cpu.rank(performance) > DeviceType::Other.rank(performance));
    assert!(DeviceType::Integrated.rank(power) > DeviceType::Discrete.rank(power));
    assert!(DeviceType::Discrete.rank(power) > DeviceType::Virtual.rank(power));
}
