use pathtracer::perlin::{exchange, generate_perm, permute, wrapped, Lattice, TABLE_SIZE};

#[test]
fn generate_perm_holds_each_index_once() {
    for _ in 0..20 {
        let p = generate_perm();
        assert_eq!(p.len(), 256);
        let mut seen = vec![false; 256];
        for &x in p.iter() {
            assert!(x < 256);
            assert!(!seen[x]);
            seen[x] = true;
        }
        assert!(seen.iter().all(|&b| b));
    }
}

#[test]
fn generate_perm_shuffles() {
    let identity: Vec<usize> = (0..256).collect();
    let mut moved = false;
    for _ in 0..5 {
        if generate_perm() != identity {
            moved = true;
        }
    }
    assert!(moved);
}

#[test]
fn permute_keeps_the_entries() {
    let mut p: Vec<usize> = vec![7, 7, 1, 9, 3, 3, 3, 100, 42, 0];
    let before = p.clone();
    permute(&mut p, 6);
    assert_eq!(p.len(), before.len());
    assert_eq!(&p[6..], &before[6..]);
    let mut a = p.clone();
    let mut b = before.clone();
    a.sort();
    b.sort();
    assert_eq!(a, b);
}

#[test]
fn permute_of_nothing_changes_nothing() {
    let mut p: Vec<usize> = vec![3, 1, 2];
    permute(&mut p, 0);
    assert_eq!(p, vec![3, 1, 2]);
    let mut q: Vec<usize> = vec![5];
    permute(&mut q, 1);
    assert_eq!(q, vec![5]);
}

#[test]
fn exchange_swaps_two_entries() {
    let mut p: Vec<usize> = vec![10, 20, 30, 40];
    exchange(&mut p, 0, 3);
    assert_eq!(p, vec![40, 20, 30, 10]);
    exchange(&mut p, 2, 2);
    assert_eq!(p, vec![40, 20, 30, 10]);
}

#[test]
fn wrapped_wraps_round_the_table() {
    assert_eq!(wrapped(0, 0), 0);
    assert_eq!(wrapped(255, 1), 0);
    assert_eq!(wrapped(256, 1), 1);
    assert_eq!(wrapped(1000, 0), 1000 % 256);
    assert_eq!(wrapped(usize::MAX, 1), 0);
    assert_eq!(wrapped(usize::MAX, 0), 255);
}

#[test]
fn corner_hashes_the_three_tables() {
    let lattice = Lattice::new();
    let (px, py, pz) = (lattice.perm_x().clone(), lattice.perm_y().clone(), lattice.perm_z().clone());
    assert_eq!(px.len(), TABLE_SIZE);
    for &(i, j, k) in [(0usize, 0usize, 0usize), (1, 2, 3), (255, 255, 255), (300, 7, 1023)].iter() {
        for di in 0..2usize {
            for dj in 0..2usize {
                for dk in 0..2usize {
                    let want = px[(i + di) & 255] ^ py[(j + dj) & 255] ^ pz[(k + dk) & 255];
                    assert_eq!(lattice.corner(i, j, k, di, dj, dk), want);
                    assert!(want < 256);
                }
            }
        }
        let all = lattice.corners(i, j, k);
        assert_eq!(all.len(), 8);
        for di in 0..2usize {
            for dj in 0..2usize {
                for dk in 0..2usize {
                    assert_eq!(all[4 * di + 2 * dj + dk], lattice.corner(i, j, k, di, dj, dk));
                }
            }
        }
    }
}

#[test]
fn corner_wraps_at_the_largest_cell() {
    let lattice = Lattice::new();
    let px = lattice.perm_x().clone();
    let py = lattice.perm_y().clone();
    let pz = lattice.perm_z().clone();
    let got = lattice.corner(usize::MAX, usize::MAX, usize::MAX, 1, 1, 1);
    assert_eq!(got, px[0] ^ py[0] ^ pz[0]);
}
