use raytracer::perlin::Perlin;
use raytracer::random::XorShift32;

fn is_permutation_of_0_to_255(table: &[i32]) -> bool {
    let mut sorted: Vec<i32> = table.to_vec();
    sorted.sort_unstable();
    sorted == (0..256).collect::<Vec<i32>>()
}

#[test]
fn generated_table_is_a_permutation() {
    let mut rng = XorShift32::new(Some(99));
    let table = Perlin::perlin_generate_perm(&mut rng);
    assert_eq!(table.len(), 256);
    assert!(is_permutation_of_0_to_255(&table));
}

#[test]
fn generated_table_is_shuffled() {
    let mut rng = XorShift32::new(Some(99));
    let table = Perlin::perlin_generate_perm(&mut rng);
    let identity: Vec<i32> = (0..256).collect();
    assert_ne!(table, identity);
}

#[test]
fn permute_keeps_the_entries() {
    let mut rng = XorShift32::new(Some(5));
    let mut values = vec![3, 1, 4, 1, 5, 9, 2, 6];
    Perlin::permute(&mut values, &mut rng);
    let mut sorted = values.clone();
    sorted.sort_unstable();
    assert_eq!(sorted, vec![1, 1, 2, 3, 4, 5, 6, 9]);
}

#[test]
fn all_three_tables_are_permutations() {
    let mut rng = XorShift32::new(Some(7));
    let perlin = Perlin::new(&mut rng);
    assert!(is_permutation_of_0_to_255(&perlin.perm_x));
    assert!(is_permutation_of_0_to_255(&perlin.perm_y));
    assert!(is_permutation_of_0_to_255(&perlin.perm_z));
    // Independent shuffles of the same generator should not coincide.
    assert_ne!(perlin.perm_x, perlin.perm_y);
}

#[test]
fn lattice_index_stays_in_bounds() {
    let mut rng = XorShift32::new(Some(11));
    let perlin = Perlin::new(&mut rng);
    for &i in &[-1000i32, -256, -255, -1, 0, 1, 255, 256, 1000, i32::MIN, i32::MAX] {
        for &j in &[-9i32, 0, 9] {
            for &k in &[-3i32, 0, 3] {
                assert!(perlin.lattice_index(i, j, k) < 256);
            }
        }
    }
}

#[test]
fn lattice_index_is_deterministic_per_seed() {
    let mut rng_a = XorShift32::new(Some(123));
    let mut rng_b = XorShift32::new(Some(123));
    let pa = Perlin::new(&mut rng_a);
    let pb = Perlin::new(&mut rng_b);
    for i in -4i32..4 {
        for j in -4i32..4 {
            assert_eq!(pa.lattice_index(i, j, i ^ j), pb.lattice_index(i, j, i ^ j));
        }
    }
}
