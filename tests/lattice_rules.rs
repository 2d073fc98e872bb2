use lattice_gpu::geometry::rotation_of;
use lattice_gpu::{DiscreteLatticeGPU, LatticeError};

fn index(width: u32, height: u32, x: u32, y: u32, z: u32) -> usize {
    (z * width * height + y * width + x) as usize
}

#[test]
fn injection_saturates_at_three() {
    let mut lattice = DiscreteLatticeGPU::new(10, 10, 10).unwrap();
    lattice.initialize_vacuum();
    lattice.add_energy_quantum(5, 5, 5, 10).unwrap();
    assert_eq!(lattice.get_energy_buffer()[index(10, 10, 5, 5, 5)], 3);
    assert_eq!(lattice.get_total_energy(), 3);
}

#[test]
fn injection_adds_below_the_cap() {
    let mut lattice = DiscreteLatticeGPU::new(4, 4, 4).unwrap();
    lattice.add_energy_quantum(1, 2, 3, 1).unwrap();
    lattice.add_energy_quantum(1, 2, 3, 1).unwrap();
    assert_eq!(lattice.get_energy_buffer()[index(4, 4, 1, 2, 3)], 2);
    assert_eq!(lattice.get_total_energy(), 2);
}

#[test]
fn injection_outside_lattice_is_refused() {
    let mut lattice = DiscreteLatticeGPU::new(20, 20, 20).unwrap();
    assert_eq!(lattice.add_energy_quantum(20, 0, 0, 1), Err(LatticeError::OutOfBounds));
    assert_eq!(lattice.add_energy_quantum(0, 20, 0, 1), Err(LatticeError::OutOfBounds));
    assert_eq!(lattice.add_energy_quantum(0, 0, 20, 1), Err(LatticeError::OutOfBounds));
    assert_eq!(lattice.get_total_energy(), 0);
}

#[test]
fn oversized_lattice_is_refused() {
    assert!(matches!(
        DiscreteLatticeGPU::new(1024, 1024, 1024),
        Err(LatticeError::DimensionOversize)
    ));
    assert!(matches!(
        DiscreteLatticeGPU::new(536870912, 1, 1),
        Err(LatticeError::DimensionOversize)
    ));
    assert!(matches!(
        DiscreteLatticeGPU::new(u32::MAX, u32::MAX, u32::MAX),
        Err(LatticeError::DimensionOversize)
    ));
}

#[test]
fn three_next_to_zero_moves_one_quantum() {
    let mut lattice = DiscreteLatticeGPU::new(2, 1, 1).unwrap();
    lattice.add_energy_quantum(0, 0, 0, 3).unwrap();
    lattice.propagate_energy();
    assert_eq!(lattice.get_energy_buffer(), &vec![2, 1]);
    lattice.propagate_energy();
    assert_eq!(lattice.get_energy_buffer(), &vec![1, 2]);
    assert_eq!(lattice.get_total_energy(), 3);
}

#[test]
fn single_site_lattice_is_frozen() {
    let mut lattice = DiscreteLatticeGPU::new(1, 1, 1).unwrap();
    lattice.add_energy_quantum(0, 0, 0, 2).unwrap();
    for _ in 0..5 {
        lattice.propagate_energy();
    }
    assert_eq!(lattice.get_energy_buffer(), &vec![2]);
}

#[test]
fn uniform_three_field_is_fixed() {
    let mut lattice = DiscreteLatticeGPU::new(10, 10, 10).unwrap();
    for z in 0..10 {
        for y in 0..10 {
            for x in 0..10 {
                lattice.add_energy_quantum(x, y, z, 3).unwrap();
            }
        }
    }
    assert_eq!(lattice.get_total_energy(), 3000);
    for _ in 0..7 {
        lattice.propagate_energy();
        assert!(lattice.get_energy_buffer().iter().all(|&e| e == 3));
    }
}

#[test]
fn identical_runs_give_identical_buffers() {
    let run = || {
        let mut lattice = DiscreteLatticeGPU::new(12, 9, 7).unwrap();
        lattice.add_energy_quantum(3, 4, 2, 3).unwrap();
        lattice.add_energy_quantum(8, 1, 5, 2).unwrap();
        lattice.add_energy_quantum(6, 6, 6, 1).unwrap();
        for _ in 0..25 {
            lattice.propagate_energy();
        }
        lattice.get_energy_buffer().clone()
    };
    assert_eq!(run(), run());
}

#[test]
fn one_step_changes_only_near_energy() {
    let mut lattice = DiscreteLatticeGPU::new(9, 9, 9).unwrap();
    lattice.add_energy_quantum(4, 4, 4, 3).unwrap();
    let before = lattice.get_energy_buffer().clone();
    lattice.propagate_energy();
    let after = lattice.get_energy_buffer();
    let mut changed = 0;
    for z in 0..9u32 {
        for y in 0..9u32 {
            for x in 0..9u32 {
                let i = index(9, 9, x, y, z);
                if before[i] != after[i] {
                    changed += 1;
                    assert!(x.abs_diff(4) <= 1 && y.abs_diff(4) <= 1 && z.abs_diff(4) <= 1);
                }
            }
        }
    }
    assert_eq!(changed, 2);
    assert_eq!(after[index(9, 9, 4, 4, 4)], 2);
}

#[test]
fn six_higher_neighbours_all_feed_the_centre() {
    let mut lattice = DiscreteLatticeGPU::new(3, 3, 3).unwrap();
    for z in 0..3 {
        for y in 0..3 {
            for x in 0..3 {
                if (x, y, z) != (1, 1, 1) {
                    lattice.add_energy_quantum(x, y, z, 3).unwrap();
                }
            }
        }
    }
    lattice.propagate_energy();
    let field = lattice.get_energy_buffer();
    assert_eq!(field[index(3, 3, 1, 1, 1)], 6);
    assert_eq!(field[index(3, 3, 0, 1, 1)], 2);
    assert_eq!(field[index(3, 3, 1, 1, 2)], 2);
    assert_eq!(field[index(3, 3, 0, 0, 0)], 3);
    assert_eq!(lattice.get_total_energy(), 78);
}

#[test]
fn direction_hash_values() {
    assert_eq!(rotation_of(0, 0, 0, 0), 0);
    assert_eq!(rotation_of(1, 0, 0, 0), 73856093 % 6);
    assert_eq!(rotation_of(1, 0, 0, 0), 5);
    assert_eq!(rotation_of(0, 1, 0, 0), 19349663 % 6);
    assert_eq!(rotation_of(0, 0, 0, 1), 2654435761 % 6);
}

#[test]
fn vacuum_reset_clears_energy() {
    let mut lattice = DiscreteLatticeGPU::new(5, 5, 5).unwrap();
    lattice.add_energy_quantum(2, 2, 2, 3).unwrap();
    lattice.propagate_energy();
    lattice.initialize_vacuum();
    assert_eq!(lattice.get_total_energy(), 0);
    for _ in 0..3 {
        lattice.propagate_energy();
    }
    assert_eq!(lattice.get_total_energy(), 0);
}

#[test]
fn injection_targets_the_active_buffer() {
    let mut lattice = DiscreteLatticeGPU::new(3, 1, 1).unwrap();
    lattice.propagate_energy();
    lattice.add_energy_quantum(1, 0, 0, 3).unwrap();
    assert_eq!(lattice.get_energy_buffer(), &vec![0, 3, 0]);
    assert_eq!(lattice.get_total_energy(), 3);
    lattice.propagate_energy();
    assert_eq!(lattice.get_total_energy(), 3);
    assert_eq!(lattice.get_energy_buffer()[1], 2);
}

#[test]
fn single_quantum_stays_within_cap() {
    let mut lattice = DiscreteLatticeGPU::new(20, 20, 20).unwrap();
    lattice.initialize_vacuum();
    lattice.add_energy_quantum(10, 10, 10, 3).unwrap();
    assert_eq!(lattice.get_total_energy(), 3);
    for _ in 0..50 {
        lattice.propagate_energy();
        assert!(lattice.get_energy_buffer().iter().all(|&e| e <= 3));
    }
    assert_eq!(lattice.get_total_energy(), 3);
}

#[test]
fn spherical_injection_total() {
    let mut lattice = DiscreteLatticeGPU::new(100, 100, 100).unwrap();
    let mut points = 0u32;
    for dz in -3i32..=3 {
        for dy in -3i32..=3 {
            for dx in -3i32..=3 {
                if dx * dx + dy * dy + dz * dz <= 9 {
                    points += 1;
                    lattice
                        .add_energy_quantum((50 + dx) as u32, (50 + dy) as u32, (50 + dz) as u32, 3)
                        .unwrap();
                }
            }
        }
    }
    assert_eq!(points, 123);
    let injected = lattice.get_total_energy();
    assert_eq!(injected, 369);
    for _ in 0..10 {
        lattice.propagate_energy();
    }
    assert_eq!(lattice.get_total_energy(), injected);
}

#[test]
fn no_emission_into_a_full_neighbour() {
    let mut lattice = DiscreteLatticeGPU::new(3, 1, 1).unwrap();
    lattice.add_energy_quantum(0, 0, 0, 3).unwrap();
    lattice.add_energy_quantum(1, 0, 0, 2).unwrap();
    lattice.add_energy_quantum(2, 0, 0, 3).unwrap();
    lattice.propagate_energy();
    assert_eq!(lattice.get_energy_buffer(), &vec![2, 4, 2]);
    lattice.add_energy_quantum(0, 0, 0, 1).unwrap();
    lattice.add_energy_quantum(2, 0, 0, 1).unwrap();
    assert_eq!(lattice.get_energy_buffer(), &vec![3, 4, 3]);
    for _ in 0..4 {
        lattice.propagate_energy();
        assert_eq!(lattice.get_energy_buffer(), &vec![3, 4, 3]);
    }
    assert_eq!(lattice.get_total_energy(), 10);
}
