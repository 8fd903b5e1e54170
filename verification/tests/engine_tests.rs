use num_complex::Complex;
use rustfft::{Fft, FftPlanner};
use std::cell::Cell;
use std::sync::Arc;
use wasm_fft::energy::calculate_energy;
use wasm_fft::engine::{axis_pass, interleave, normalize, pair_samples, Sample, FFT3D};
use wasm_fft::error::{Component, FftError};
use wasm_fft::layout::Axis;
use wasm_fft::plan::{Direction, FFTPlanCache};

type Plan = Arc<dyn Fft<f32>>;

fn build(size: usize, direction: Direction) -> Plan {
    let mut planner = FftPlanner::new();
    match direction {
        Direction::Forward => planner.plan_fft_forward(size),
        Direction::Inverse => planner.plan_fft_inverse(size),
    }
}

fn run(plan: &Plan, line: Vec<Sample<f32>>) -> Vec<Sample<f32>> {
    let mut buffer: Vec<Complex<f32>> = line.iter().map(|s| Complex::new(s.re, s.im)).collect();
    plan.process(&mut buffer);
    buffer.iter().map(|c| Sample { re: c.re, im: c.im }).collect()
}

fn scale(value: f32, total: usize) -> f32 {
    value * (1.0 / (total as f32))
}

fn add_square(total: f32, re: f32, im: f32) -> f32 {
    total + (re * re + im * im)
}

fn reverse(_plan: &u8, line: Vec<Sample<i64>>) -> Vec<Sample<i64>> {
    line.into_iter().rev().collect()
}

fn no_plan(_size: usize, _direction: Direction) -> u8 {
    0
}

fn halve(value: i64, _total: usize) -> i64 {
    value / 2
}

#[test]
fn test_fft_creation() {
    let fft = FFT3D::new(8, build, run, scale);
    assert!(fft.is_ok());

    let fft = fft.unwrap();
    assert_eq!(fft.size(), 8);
    assert_eq!(fft.total_size(), 512);
}

#[test]
fn test_fft_invalid_size() {
    let fft = FFT3D::new(5, build, run, scale);
    assert!(fft.is_err());
}

#[test]
fn test_forward_inverse_roundtrip() {
    let mut fft = FFT3D::new(8, build, run, scale).unwrap();
    let size = 512;

    let mut input_real = vec![0.0f32; size];
    let input_imag = vec![0.0f32; size];
    input_real[0] = 1.0;

    let forward = fft.forward(&input_real, &input_imag).unwrap();

    let fwd_real: Vec<f32> = forward.iter().step_by(2).copied().collect();
    let fwd_imag: Vec<f32> = forward.iter().skip(1).step_by(2).copied().collect();

    let inverse = fft.inverse(&fwd_real, &fwd_imag).unwrap();

    let inv_real: Vec<f32> = inverse.iter().step_by(2).copied().collect();

    assert!((inv_real[0] - 1.0).abs() < 1e-5, "Expected ~1.0, got {}", inv_real[0]);

    for i in 1..size {
        assert!(inv_real[i].abs() < 1e-5, "Expected ~0.0 at {}, got {}", i, inv_real[i]);
    }
}

#[test]
fn test_energy_calculation() {
    let real = vec![1.0, 2.0, 3.0];
    let imag = vec![0.0, 0.0, 0.0];

    let energy = calculate_energy(&real, &imag, 0.0f32, add_square).unwrap();
    assert!((energy - 14.0).abs() < 1e-5);
}

#[test]
fn test_energy_with_complex() {
    let real = vec![3.0, 0.0];
    let imag = vec![4.0, 5.0];

    let energy = calculate_energy(&real, &imag, 0.0f32, add_square).unwrap();
    assert!((energy - 50.0).abs() < 1e-5);
}

#[test]
fn energy_of_nothing_is_the_start_value() {
    let none: Vec<f32> = Vec::new();
    assert_eq!(calculate_energy(&none, &none, 0.0f32, add_square), Ok(0.0));
}

#[test]
fn energy_rejects_arrays_of_different_length() {
    let real = vec![1.0f32, 2.0];
    let imag = vec![1.0f32];
    assert_eq!(
        calculate_energy(&real, &imag, 0.0f32, add_square),
        Err(FftError::LengthMismatch)
    );
}

#[test]
fn energy_folds_in_order() {
    let real = vec![1i64, 2, 3];
    let imag = vec![10i64, 20, 30];
    let chain = |total: i64, re: i64, im: i64| total * 100 + re + im;
    assert_eq!(calculate_energy(&real, &imag, 7, chain), Ok(7_112_233));
}

#[test]
fn supported_sizes_are_exactly_8_16_32() {
    for size in 0..=64usize {
        let engine = FFT3D::new(size, build, run, scale);
        if size == 8 || size == 16 || size == 32 {
            assert!(engine.is_ok());
        } else {
            assert_eq!(engine.err(), Some(FftError::UnsupportedSize { size }));
        }
    }
}

#[test]
fn shape_accessors_for_each_size() {
    let engine = FFT3D::new(8, build, run, scale).unwrap();
    assert_eq!((engine.size(), engine.total_size()), (8, 512));
    let engine = FFT3D::new(16, build, run, scale).unwrap();
    assert_eq!((engine.size(), engine.total_size()), (16, 4096));
    let engine = FFT3D::new(32, build, run, scale).unwrap();
    assert_eq!((engine.size(), engine.total_size()), (32, 32768));
}

#[test]
fn wrong_real_length_is_reported() {
    let mut engine = FFT3D::new(8, build, run, scale).unwrap();
    let real = vec![0.0f32; 100];
    let imag = vec![0.0f32; 512];
    let expected = FftError::InvalidInputLength {
        expected: 512,
        actual: 100,
        component: Component::Real,
    };
    assert_eq!(engine.validate_input(&real, &imag), Err(expected));
    assert_eq!(engine.forward(&real, &imag), Err(expected));
    assert_eq!(engine.inverse(&real, &imag), Err(expected));
    assert_eq!(
        engine.forward(&real, &imag).unwrap_err().message(),
        "Invalid input length: expected 512, got 100 (real)"
    );
}

#[test]
fn wrong_imaginary_length_is_reported() {
    let mut engine = FFT3D::new(8, build, run, scale).unwrap();
    let real = vec![0.0f32; 512];
    let imag = vec![0.0f32; 513];
    let expected = FftError::InvalidInputLength {
        expected: 512,
        actual: 513,
        component: Component::Imaginary,
    };
    assert_eq!(engine.validate_input(&real, &imag), Err(expected));
    assert_eq!(engine.forward(&real, &imag), Err(expected));
    assert_eq!(engine.inverse(&real, &imag), Err(expected));
}

#[test]
fn real_length_is_checked_first() {
    let engine = FFT3D::new(8, build, run, scale).unwrap();
    let real = vec![0.0f32; 1];
    let imag = vec![0.0f32; 2];
    assert_eq!(
        engine.validate_input(&real, &imag),
        Err(FftError::InvalidInputLength { expected: 512, actual: 1, component: Component::Real })
    );
    let good = vec![0.0f32; 512];
    assert_eq!(engine.validate_input(&good, &good), Ok(()));
}

#[test]
fn impulse_has_a_flat_spectrum() {
    let mut engine = FFT3D::new(8, build, run, scale).unwrap();
    let mut real = vec![0.0f32; 512];
    let imag = vec![0.0f32; 512];
    real[0] = 1.0;
    let spectrum = engine.forward(&real, &imag).unwrap();
    assert_eq!(spectrum.len(), 1024);
    for i in 0..512 {
        assert!((spectrum[2 * i] - 1.0).abs() < 1e-5);
        assert!(spectrum[2 * i + 1].abs() < 1e-5);
    }
}

#[test]
fn constant_volume_transforms_to_one_peak() {
    let mut engine = FFT3D::new(8, build, run, scale).unwrap();
    let real = vec![1.0f32; 512];
    let imag = vec![0.0f32; 512];
    let spectrum = engine.forward(&real, &imag).unwrap();
    assert!((spectrum[0] - 512.0).abs() < 1e-2);
    for i in 1..512 {
        assert!(spectrum[2 * i].abs() < 1e-3);
        assert!(spectrum[2 * i + 1].abs() < 1e-3);
    }
}

#[test]
fn plane_wave_along_y_peaks_at_its_frequency() {
    let mut engine = FFT3D::new(8, build, run, scale).unwrap();
    let mut real = vec![0.0f32; 512];
    let mut imag = vec![0.0f32; 512];
    for z in 0..8usize {
        for y in 0..8usize {
            for x in 0..8usize {
                let phase = 2.0 * std::f32::consts::PI * (y as f32) / 8.0;
                real[z * 64 + y * 8 + x] = phase.cos();
                imag[z * 64 + y * 8 + x] = phase.sin();
            }
        }
    }
    let spectrum = engine.forward(&real, &imag).unwrap();
    let peak = 8;
    for i in 0..512 {
        let expected = if i == peak { 512.0 } else { 0.0 };
        assert!((spectrum[2 * i] - expected).abs() < 1e-2, "re at {}", i);
        assert!(spectrum[2 * i + 1].abs() < 1e-2, "im at {}", i);
    }
}

#[test]
fn roundtrip_of_a_ramp_for_each_size() {
    for size in [8usize, 16, 32] {
        let mut engine = FFT3D::new(size, build, run, scale).unwrap();
        let total = engine.total_size();
        let real: Vec<f32> = (0..total).map(|i| ((i % 17) as f32) / 17.0).collect();
        let imag: Vec<f32> = (0..total).map(|i| ((i % 5) as f32) / 5.0 - 0.5).collect();
        let spectrum = engine.forward(&real, &imag).unwrap();
        let re: Vec<f32> = spectrum.iter().step_by(2).copied().collect();
        let im: Vec<f32> = spectrum.iter().skip(1).step_by(2).copied().collect();
        let back = engine.inverse(&re, &im).unwrap();
        assert_eq!(back.len(), 2 * total);
        for i in 0..total {
            assert!((back[2 * i] - real[i]).abs() < 1e-4);
            assert!((back[2 * i + 1] - imag[i]).abs() < 1e-4);
        }
    }
}

#[test]
fn plans_are_built_once_per_direction() {
    let forward_builds = Cell::new(0usize);
    let inverse_builds = Cell::new(0usize);
    let counting = |size: usize, direction: Direction| {
        match direction {
            Direction::Forward => forward_builds.set(forward_builds.get() + 1),
            Direction::Inverse => inverse_builds.set(inverse_builds.get() + 1),
        }
        build(size, direction)
    };
    let mut engine = FFT3D::new(8, counting, run, scale).unwrap();
    assert_eq!((forward_builds.get(), inverse_builds.get()), (0, 0));
    let real = vec![0.5f32; 512];
    let imag = vec![0.25f32; 512];
    engine.forward(&real, &imag).unwrap();
    assert_eq!((forward_builds.get(), inverse_builds.get()), (1, 1));
    engine.inverse(&real, &imag).unwrap();
    engine.forward(&real, &imag).unwrap();
    assert_eq!((forward_builds.get(), inverse_builds.get()), (1, 1));
}

#[test]
fn failed_validation_builds_no_plan() {
    let builds = Cell::new(0usize);
    let counting = |size: usize, direction: Direction| {
        builds.set(builds.get() + 1);
        build(size, direction)
    };
    let mut engine = FFT3D::new(16, counting, run, scale).unwrap();
    let short = vec![0.0f32; 7];
    assert!(engine.forward(&short, &short).is_err());
    assert_eq!(builds.get(), 0);
}

#[test]
fn cache_builds_each_size_once() {
    let builds = Cell::new(0usize);
    let counting = |size: usize, _direction: Direction| {
        builds.set(builds.get() + 1);
        size * 10
    };
    let mut cache: FFTPlanCache<usize> = FFTPlanCache::new();
    {
        let pair = cache.get_plans(8, &counting).unwrap();
        assert_eq!((pair.forward, pair.inverse), (80, 80));
        assert_eq!(*pair.get(Direction::Forward), 80);
    }
    assert_eq!(builds.get(), 2);
    assert!(cache.get_plans(8, &counting).is_ok());
    assert_eq!(builds.get(), 2);
    assert_eq!(cache.get_plans(32, &counting).map(|p| p.inverse), Ok(320));
    assert_eq!(builds.get(), 4);
    assert_eq!(cache.get_plans(16, &counting).map(|p| p.forward), Ok(160));
    assert_eq!(builds.get(), 6);
}

#[test]
fn cache_rejects_other_sizes() {
    let unused = |_size: usize, _direction: Direction| -> usize { unreachable!() };
    let mut cache: FFTPlanCache<usize> = FFTPlanCache::default();
    assert_eq!(
        cache.get_plans(12, &unused).map(|p| p.forward),
        Err(FftError::UnsupportedSize { size: 12 })
    );
    assert_eq!(
        cache.get_plans(0, &unused).map(|p| p.forward),
        Err(FftError::UnsupportedSize { size: 0 })
    );
}

#[test]
fn three_reversing_passes_reverse_the_volume() {
    let mut engine = FFT3D::new(8, no_plan, reverse, halve).unwrap();
    let real: Vec<i64> = (0..512).collect();
    let imag: Vec<i64> = (0..512).map(|i| 1000 + i).collect();
    let out = engine.forward(&real, &imag).unwrap();
    for i in 0..512usize {
        assert_eq!(out[2 * i], 511 - i as i64);
        assert_eq!(out[2 * i + 1], 1511 - i as i64);
    }
    let scaled = engine.inverse(&real, &imag).unwrap();
    for i in 0..512usize {
        assert_eq!(scaled[2 * i], (511 - i as i64) / 2);
        assert_eq!(scaled[2 * i + 1], (1511 - i as i64) / 2);
    }
}

#[test]
fn fft_3d_transforms_in_place() {
    let mut engine = FFT3D::new(8, no_plan, reverse, halve).unwrap();
    let mut volume: Vec<Sample<i64>> = (0..512).map(|i| Sample { re: i, im: -i }).collect();
    assert_eq!(engine.fft_3d(&mut volume, Direction::Inverse), Ok(()));
    for i in 0..512usize {
        assert_eq!(volume[i].re, 511 - i as i64);
        assert_eq!(volume[i].im, i as i64 - 511);
    }
}

#[test]
fn one_pass_touches_lines_of_its_axis_only() {
    let start: Vec<Sample<i64>> = (0..8).map(|i| Sample { re: i, im: 0 }).collect();
    let plan = 0u8;

    let mut along_x = start.clone();
    axis_pass(&mut along_x, 2, Axis::X, &plan, &reverse);
    let got: Vec<i64> = along_x.iter().map(|s| s.re).collect();
    assert_eq!(got, vec![1, 0, 3, 2, 5, 4, 7, 6]);

    let mut along_y = start.clone();
    axis_pass(&mut along_y, 2, Axis::Y, &plan, &reverse);
    let got: Vec<i64> = along_y.iter().map(|s| s.re).collect();
    assert_eq!(got, vec![2, 3, 0, 1, 6, 7, 4, 5]);

    let mut along_z = start.clone();
    axis_pass(&mut along_z, 2, Axis::Z, &plan, &reverse);
    let got: Vec<i64> = along_z.iter().map(|s| s.re).collect();
    assert_eq!(got, vec![4, 5, 6, 7, 0, 1, 2, 3]);
}

#[test]
fn pass_order_does_not_change_the_spectrum() {
    let plan = build(8, Direction::Forward);
    let start: Vec<Sample<f32>> = (0..512)
        .map(|i| Sample { re: ((i * 7 % 13) as f32) / 13.0, im: ((i * 3 % 11) as f32) / 11.0 })
        .collect();
    let mut xyz = start.clone();
    axis_pass(&mut xyz, 8, Axis::X, &plan, &run);
    axis_pass(&mut xyz, 8, Axis::Y, &plan, &run);
    axis_pass(&mut xyz, 8, Axis::Z, &plan, &run);
    let orders = [
        [Axis::X, Axis::Z, Axis::Y],
        [Axis::Y, Axis::X, Axis::Z],
        [Axis::Y, Axis::Z, Axis::X],
        [Axis::Z, Axis::X, Axis::Y],
        [Axis::Z, Axis::Y, Axis::X],
    ];
    for order in orders {
        let mut other = start.clone();
        for axis in order {
            axis_pass(&mut other, 8, axis, &plan, &run);
        }
        for i in 0..512 {
            assert!((other[i].re - xyz[i].re).abs() < 1e-3);
            assert!((other[i].im - xyz[i].im).abs() < 1e-3);
        }
    }
}

#[test]
fn pairing_and_interleaving_keep_the_order() {
    let real = vec![1u32, 2, 3];
    let imag = vec![10u32, 20, 30];
    let volume = pair_samples(&real, &imag);
    assert_eq!(volume.len(), 3);
    assert_eq!((volume[1].re, volume[1].im), (2, 20));
    assert_eq!(interleave(&volume), vec![1, 10, 2, 20, 3, 30]);
    let empty: Vec<Sample<u32>> = Vec::new();
    assert_eq!(interleave(&empty), Vec::<u32>::new());
}

#[test]
fn normalize_scales_every_component_once() {
    let mut volume = vec![Sample { re: 8.0f32, im: -4.0 }, Sample { re: 0.0, im: 2.0 }];
    normalize(&mut volume, 4, &scale);
    assert_eq!((volume[0].re, volume[0].im), (2.0, -1.0));
    assert_eq!((volume[1].re, volume[1].im), (0.0, 0.5));
}

fn direction_plan(_size: usize, direction: Direction) -> Direction {
    direction
}

fn sums_or_differences(plan: &Direction, line: Vec<Sample<i64>>) -> Vec<Sample<i64>> {
    let mut out = Vec::with_capacity(line.len());
    let mut previous = Sample { re: 0i64, im: 0i64 };
    for sample in line {
        match plan {
            Direction::Forward => {
                previous = Sample { re: previous.re + sample.re, im: previous.im + sample.im };
                out.push(previous);
            }
            Direction::Inverse => {
                out.push(Sample { re: sample.re - previous.re, im: sample.im - previous.im });
                previous = sample;
            }
        }
    }
    out
}

fn keep(value: i64, _total: usize) -> i64 {
    value
}

#[test]
fn exact_round_trip_with_running_sums() {
    let mut engine = FFT3D::new(8, direction_plan, sums_or_differences, keep).unwrap();
    let real: Vec<i64> = (0..512).map(|i| (i * 37) % 101 - 50).collect();
    let imag: Vec<i64> = (0..512).map(|i| (i * 13) % 29).collect();
    let sums = engine.forward(&real, &imag).unwrap();
    assert_eq!(sums[0], real[0]);
    assert_eq!(sums[2 * 511], real.iter().sum::<i64>());
    assert_eq!(sums[2 * 511 + 1], imag.iter().sum::<i64>());
    let re: Vec<i64> = sums.iter().step_by(2).copied().collect();
    let im: Vec<i64> = sums.iter().skip(1).step_by(2).copied().collect();
    let back = engine.inverse(&re, &im).unwrap();
    for i in 0..512 {
        assert_eq!(back[2 * i], real[i]);
        assert_eq!(back[2 * i + 1], imag[i]);
    }
}

#[test]
fn exact_pass_order_with_running_sums() {
    let plan = Direction::Forward;
    let start: Vec<Sample<i64>> =
        (0..64).map(|i| Sample { re: (i * 7) % 11, im: (i * 5) % 3 - 1 }).collect();
    let mut xyz = start.clone();
    axis_pass(&mut xyz, 4, Axis::X, &plan, &sums_or_differences);
    axis_pass(&mut xyz, 4, Axis::Y, &plan, &sums_or_differences);
    axis_pass(&mut xyz, 4, Axis::Z, &plan, &sums_or_differences);
    let orders = [
        [Axis::X, Axis::Z, Axis::Y],
        [Axis::Y, Axis::X, Axis::Z],
        [Axis::Y, Axis::Z, Axis::X],
        [Axis::Z, Axis::X, Axis::Y],
        [Axis::Z, Axis::Y, Axis::X],
    ];
    for order in orders {
        let mut other = start.clone();
        for axis in order {
            axis_pass(&mut other, 4, axis, &plan, &sums_or_differences);
        }
        for i in 0..64 {
            assert_eq!((other[i].re, other[i].im), (xyz[i].re, xyz[i].im));
        }
    }
}

#[test]
fn short_imaginary_array_gets_the_imag_message() {
    let mut engine = FFT3D::new(8, build, run, scale).unwrap();
    let real = vec![0.0f32; 512];
    let imag = vec![0.0f32; 3];
    let error = engine.validate_input(&real, &imag).unwrap_err();
    assert_eq!(error.message(), "Invalid input length: expected 512, got 3 (imag)");
    assert_eq!(
        engine.inverse(&real, &imag).unwrap_err().message(),
        "Invalid input length: expected 512, got 3 (imag)"
    );
}
