use cpu_panel::geometry::{generate_indexes, CPU_WIDTH, RES_WIDTH, THREAD_COUNT, TILE_LEN, TOTAL_LEDS};

fn print_chunks(res: &[usize]) {
    for n in res.chunks(CPU_WIDTH) {
        println!("{n:?}");
    }
}

#[test]
fn test_generate_indexes() {
    let res = generate_indexes(0);
    assert_eq!(res.clone()[0], 0);
    print_chunks(&res);

    let cpu_6 = generate_indexes(6);
    print_chunks(&cpu_6);
    for i in 1..6 {
        assert_eq!(
            res.clone()
                .into_iter()
                .map(|v| v + CPU_WIDTH * i)
                .collect::<Vec<usize>>(),
            generate_indexes(i)
        );
        assert_eq!(
            cpu_6
                .clone()
                .into_iter()
                .map(|v| v + CPU_WIDTH * i)
                .collect::<Vec<usize>>(),
            generate_indexes(i + 6)
        );
    }
}

#[test]
fn tiles_hold_distinct_pixels_on_the_panel() {
    for cpu in 0..THREAD_COUNT {
        let tile = generate_indexes(cpu);
        assert_eq!(tile.len(), TILE_LEN);
        let mut sorted = tile.to_vec();
        sorted.sort();
        sorted.dedup();
        assert_eq!(sorted.len(), TILE_LEN);
        assert!(tile.iter().all(|&i| i < TOTAL_LEDS));
        assert!(tile.windows(2).all(|w| w[0] < w[1]));
    }
}

#[test]
fn first_tiles_of_each_half() {
    let top = generate_indexes(0);
    assert_eq!(&top[..12], &[0, 1, 2, 3, 4, 5, 6, 7, 8, 9, 64, 65]);
    assert_eq!(top[159], 15 * 64 + 9);
    let bottom = generate_indexes(6);
    assert_eq!(bottom[0], TOTAL_LEDS / 2);
    assert_eq!(bottom[159], 2048 - 64 + 9);
    let last = generate_indexes(11);
    assert_eq!(last[0], 1024 + 50);
    assert_eq!(last[159], 1024 + 15 * 64 + 59);
}

#[test]
fn neighbour_tile_is_shifted_one_band() {
    for cpu in [0usize, 1, 2, 3, 4, 6, 7, 8, 9, 10] {
        let a = generate_indexes(cpu);
        let b = generate_indexes(cpu + 1);
        for k in 0..TILE_LEN {
            assert_eq!(b[k], a[k] + CPU_WIDTH);
            assert_eq!(b[k] / RES_WIDTH, a[k] / RES_WIDTH);
        }
    }
}

#[test]
fn cores_past_twelve_reuse_bottom_tiles() {
    assert_eq!(generate_indexes(12), generate_indexes(6));
    assert_eq!(generate_indexes(23), generate_indexes(11));
}
