use ingredient::shape::ProcessedShape;
use ingredient::shape::RawShape;

fn grid(bits: u16) -> RawShape {
    let mut rows = [[false; 3]; 3];
    for r in 0..3 {
        for c in 0..3 {
            rows[r][c] = bits & (1 << (3 * r + c)) != 0;
        }
    }
    RawShape::from(rows)
}

fn cells(shape: RawShape) -> [[bool; 3]; 3] {
    shape.into()
}

fn canonical(shape: RawShape) -> ProcessedShape {
    shape.into()
}

fn aligned(shape: ProcessedShape) -> [[bool; 3]; 3] {
    let raw: RawShape = shape.into();
    raw.into()
}

fn moved(rows: [[bool; 3]; 3], dr: i32, dc: i32) -> Option<[[bool; 3]; 3]> {
    let mut out = [[false; 3]; 3];
    for r in 0..3i32 {
        for c in 0..3i32 {
            if rows[r as usize][c as usize] {
                let (nr, nc) = (r + dr, c + dc);
                if nr < 0 || nr > 2 || nc < 0 || nc > 2 {
                    return None;
                }
                out[nr as usize][nc as usize] = true;
            }
        }
    }
    Some(out)
}

#[test]
fn four_quarter_turns_are_the_identity_on_every_grid() {
    for bits in 0..512u16 {
        let g = grid(bits);
        let back = g.rotate_right().rotate_right().rotate_right().rotate_right();
        assert_eq!(cells(back), cells(g));
    }
}

#[test]
fn two_quarter_turns_are_a_half_turn() {
    for bits in 0..512u16 {
        let g = cells(grid(bits));
        let half = cells(grid(bits).rotate_right().rotate_right());
        for r in 0..3 {
            for c in 0..3 {
                assert_eq!(half[r][c], g[2 - r][2 - c]);
            }
        }
    }
}

#[test]
fn aligning_twice_is_aligning_once_on_every_grid() {
    for bits in 0..512u16 {
        let once = grid(bits).move_to_corner();
        assert_eq!(cells(once.move_to_corner()), cells(once));
    }
}

#[test]
fn aligned_grids_have_their_corner_at_the_origin() {
    for bits in 1..512u16 {
        let g = grid(bits);
        let a = g.move_to_corner();
        assert_eq!(a.corner(), Some((0, 0)));
        assert_eq!(a.size(), g.size());
    }
}

#[test]
fn size_is_zero_exactly_when_there_is_no_corner() {
    for bits in 0..512u16 {
        let g = grid(bits);
        assert_eq!(g.size() == (0, 0), g.corner().is_none());
        assert_eq!(g.corner().is_none(), bits == 0);
    }
}

#[test]
fn projections_bound_every_occupied_cell() {
    for bits in 1..512u16 {
        let g = grid(bits);
        let rows = cells(g);
        let (top, left) = g.corner().unwrap();
        let (width, height) = g.size();
        let mut rows_seen = [false; 3];
        let mut cols_seen = [false; 3];
        for r in 0..3 {
            for c in 0..3 {
                if rows[r][c] {
                    assert!(top <= r && r < top + height);
                    assert!(left <= c && c < left + width);
                    rows_seen[r] = true;
                    cols_seen[c] = true;
                }
            }
        }
        assert!(rows_seen[top] && rows_seen[top + height - 1]);
        assert!(cols_seen[left] && cols_seen[left + width - 1]);
        assert_eq!(g.box_top(), Some(top));
        assert_eq!(g.box_left(), Some(left));
        assert_eq!(g.box_bottom(), Some(top + height - 1));
        assert_eq!(g.box_right(), Some(left + width - 1));
    }
}

#[test]
fn translated_grids_have_equal_canonical_shapes() {
    let mut pairs = 0;
    for bits in 0..512u16 {
        let g = grid(bits);
        for dr in -2..=2 {
            for dc in -2..=2 {
                if let Some(rows) = moved(cells(g), dr, dc) {
                    let h = RawShape::from(rows);
                    assert!(canonical(g) == canonical(h));
                    assert_eq!(canonical(g).size(), canonical(h).size());
                    assert_eq!(aligned(canonical(g)), aligned(canonical(h)));
                    pairs += 1;
                }
            }
        }
    }
    assert!(pairs > 512);
}

#[test]
fn equal_canonical_shapes_come_only_from_translations() {
    for a in 0..512u16 {
        for b in 0..512u16 {
            if canonical(grid(a)) == canonical(grid(b)) {
                let mut found = false;
                for dr in -2..=2 {
                    for dc in -2..=2 {
                        if moved(cells(grid(a)), dr, dc) == Some(cells(grid(b))) {
                            found = true;
                        }
                    }
                }
                assert!(found);
            }
        }
    }
}

#[test]
fn every_grid_has_one_two_or_four_variants() {
    let mut seen = [0usize; 5];
    for bits in 0..512u16 {
        let g = grid(bits);
        let variants = g.available_shapes();
        let n = variants.len();
        assert!(n == 1 || n == 2 || n == 4);
        seen[n] += 1;
        for i in 0..n {
            for j in 0..i {
                assert!(variants[i] != variants[j]);
            }
        }
        let mut turned = g;
        for _ in 0..4 {
            let shape = canonical(turned);
            assert!(variants.iter().any(|v| *v == shape));
            turned = turned.rotate_right();
        }
        assert!(variants[0] == canonical(g));
    }
    assert!(seen[1] > 0 && seen[2] > 0 && seen[4] > 0);
    assert_eq!(seen[3], 0);
}

#[test]
fn variants_do_not_depend_on_the_starting_rotation() {
    for bits in 0..512u16 {
        let g = grid(bits);
        let here = g.available_shapes();
        let there = g.rotate_right().available_shapes();
        assert_eq!(here.len(), there.len());
        for v in here.iter() {
            assert!(there.iter().any(|w| w == v));
        }
    }
}
