use raytracer::perlin::{perlin_generate_perm, permute, swap_entries, Permutations};

fn identity() -> [u8; 256] {
    let mut table = [0u8; 256];
    for i in 0..256 {
        table[i] = i as u8;
    }
    table
}

fn sorted(table: &[u8; 256]) -> Vec<u8> {
    let mut v = table.to_vec();
    v.sort();
    v
}

#[test]
fn generated_table_holds_every_byte_once() {
    for _ in 0..20 {
        let table = perlin_generate_perm();
        assert_eq!(sorted(&table), identity().to_vec());
    }
}

#[test]
fn generated_tables_differ() {
    // Eight tables in a row that all come out in ascending order would mean
    // that nothing is shuffled.
    let all_in_order = (0..8).all(|_| perlin_generate_perm() == identity());
    assert!(!all_in_order);
}

#[test]
fn permute_keeps_what_the_table_holds() {
    let mut table = [7u8; 256];
    table[3] = 1;
    table[200] = 1;
    table[255] = 9;
    let before = sorted(&table);
    permute(&mut table);
    assert_eq!(sorted(&table), before);
}

#[test]
fn swap_exchanges_two_entries() {
    let mut table = identity();
    swap_entries(&mut table, 3, 250);
    assert_eq!(table[3], 250);
    assert_eq!(table[250], 3);
    for i in 0..256 {
        if i != 3 && i != 250 {
            assert_eq!(table[i], i as u8);
        }
    }
    swap_entries(&mut table, 17, 17);
    assert_eq!(table[17], 17);
}

#[test]
fn lattice_hash_wraps_at_256() {
    let tables = Permutations::generate();
    for &(i, j, k) in &[(0usize, 0usize, 0usize), (1, 2, 3), (255, 254, 253), (17, 300, 9)] {
        let h = tables.lattice_hash(i, j, k);
        assert_eq!(h, tables.lattice_hash(i + 256, j, k));
        assert_eq!(h, tables.lattice_hash(i, j + 512, k));
        assert_eq!(h, tables.lattice_hash(i, j, k + 256 * 7));
    }
    let top = usize::MAX;
    assert_eq!(tables.lattice_hash(top, top, top), tables.lattice_hash(255, 255, 255));
}

#[test]
fn hash_of_one_axis_runs_through_all_places() {
    // With the other two coordinates fixed, the hash is a shuffled table
    // mixed with a constant, so it takes every value once.
    let tables = Permutations::generate();
    let mut seen = [false; 256];
    for i in 0..256 {
        seen[tables.lattice_hash(i, 5, 9) as usize] = true;
    }
    assert!(seen.iter().all(|&s| s));
}

#[test]
fn corner_hashes_are_the_hashes_of_the_eight_corners() {
    let tables = Permutations::generate();
    for &(i, j, k) in &[(0usize, 0usize, 0usize), (255, 255, 255), (1000, 3, 77)] {
        let corners = tables.corner_hashes(i, j, k);
        for di in 0..2 {
            for dj in 0..2 {
                for dk in 0..2 {
                    assert_eq!(
                        corners[di * 4 + dj * 2 + dk],
                        tables.lattice_hash(i + di, j + dj, k + dk)
                    );
                }
            }
        }
    }
}
