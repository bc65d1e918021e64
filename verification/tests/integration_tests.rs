// Mass-spring fixture: F = -kx, analytical solution x(t) = A*cos(wt + phi).
struct HarmonicOscillator {
    spring_constant: f64,
    mass: f64,
    initial_position: f64,
    initial_velocity: f64,
}

impl HarmonicOscillator {
    fn new(k: f64, m: f64, x0: f64, v0: f64) -> Self {
        HarmonicOscillator { spring_constant: k, mass: m, initial_position: x0, initial_velocity: v0 }
    }

    fn omega(&self) -> f64 {
        (self.spring_constant / self.mass).sqrt()
    }

    fn amplitude(&self) -> f64 {
        let omega = self.omega();
        (self.initial_position.powi(2) + (self.initial_velocity / omega).powi(2)).sqrt()
    }

    fn phase(&self) -> f64 {
        let omega = self.omega();
        (-self.initial_velocity / (omega * self.initial_position)).atan()
    }

    fn position_at(&self, t: f64) -> f64 {
        let omega = self.omega();
        let amplitude = self.amplitude();
        let phase = self.phase();
        amplitude * (omega * t + phase).cos()
    }

    fn energy(&self, x: f64, v: f64) -> f64 {
        0.5 * self.mass * v * v + 0.5 * self.spring_constant * x * x
    }
}

#[test]
fn test_harmonic_oscillator_physics() {
    let sho = HarmonicOscillator::new(100.0, 1.0, 1.0, 0.0);

    let omega = (100.0_f64).sqrt();
    assert!((sho.omega() - omega).abs() < 1e-10);

    assert!((sho.position_at(0.0) - 1.0).abs() < 1e-10);

    let e0 = sho.energy(1.0, 0.0);
    let e1 = sho.energy(0.0, 10.0);
    assert!((e0 - e1).abs() < 1e-6);
}
