use keydeck::device::{key_pad_id, matching_devices, DeviceId};
use keydeck::pager::{build_page, image_pages, pages_needed, PAGE_SIZE};
use keydeck::report::{brightness_report, get_pressed_button, input_request, pressed_key};

#[test]
fn brightness_full_scale() {
    let r = brightness_report(100);
    assert_eq!(r.len(), 32);
    assert_eq!(r[0], 0x03);
    assert_eq!(r[1], 0x08);
    assert_eq!(r[2], 100);
    assert!(r[3..].iter().all(|&b| b == 0));
}

#[test]
fn brightness_wraps_modulo_256() {
    let r = brightness_report(300);
    assert_eq!(r[0], 0x03);
    assert_eq!(r[1], 0x08);
    assert_eq!(r[2], 44);
    assert_eq!(brightness_report(0)[2], 0);
    assert_eq!(brightness_report(256)[2], 0);
}

#[test]
fn input_request_primes_length_hint() {
    let r = input_request();
    assert_eq!(r.len(), 32);
    assert_eq!(r[0], 19);
    assert!(r[1..].iter().all(|&b| b == 0));
}

#[test]
fn single_pressed_key_is_reported() {
    let mut s = [0u8; 15];
    s[6] = 1;
    assert_eq!(get_pressed_button(&s), Some(6));
}

#[test]
fn no_pressed_key_gives_none() {
    assert_eq!(get_pressed_button(&[0u8; 15]), None);
    assert_eq!(get_pressed_button(&[]), None);
    assert_eq!(get_pressed_button(&[2u8, 255, 0]), None);
}

#[test]
fn lowest_of_several_pressed_keys_wins() {
    let mut s = [0u8; 15];
    s[9] = 1;
    s[4] = 1;
    s[14] = 1;
    assert_eq!(get_pressed_button(&s), Some(4));
}

#[test]
fn pressed_key_reads_only_the_state_bytes() {
    let mut report = input_request();
    assert_eq!(pressed_key(&report), None);
    report[3] = 1;
    report[19] = 1;
    assert_eq!(pressed_key(&report), None);
    report[4 + 5] = 1;
    report[4 + 11] = 1;
    assert_eq!(pressed_key(&report), Some(5));
    let mut last = [0u8; 32];
    last[18] = 1;
    assert_eq!(pressed_key(&last), Some(14));
}

#[test]
fn two_thousand_byte_image_for_key_three() {
    let img: Vec<u8> = (0..2000u32).map(|i| (i % 251) as u8).collect();
    let pages = image_pages(3, &img);
    assert_eq!(pages.len(), 2);
    assert_eq!(pages[0][..8], [0x02, 0x07, 3, 0, (1016 & 0xFF) as u8, (1016 >> 8) as u8, 0, 0]);
    assert_eq!(pages[1][..8], [0x02, 0x07, 3, 1, (984 & 0xFF) as u8, (984 >> 8) as u8, 1, 0]);
    assert_eq!(pages[0].len(), 1024);
    assert_eq!(pages[1].len(), 1024);
    assert_eq!(pages[0][8..], img[..1016]);
    assert_eq!(pages[1][8..8 + 984], img[1016..]);
    assert!(pages[1][8 + 984..].iter().all(|&b| b == 0));
}

#[test]
fn page_counts_round_up() {
    assert_eq!(pages_needed(0), 0);
    assert_eq!(pages_needed(1), 1);
    assert_eq!(pages_needed(1016), 1);
    assert_eq!(pages_needed(1017), 2);
    assert_eq!(pages_needed(2032), 2);
    assert_eq!(image_pages(0, &[]).len(), 0);
}

#[test]
fn exact_multiple_sets_last_flag_on_final_page_only() {
    let img = vec![0xAAu8; 2032];
    let pages = image_pages(14, &img);
    assert_eq!(pages.len(), 2);
    assert_eq!(pages[0][3], 0);
    assert_eq!(pages[1][3], 1);
    assert_eq!(pages[1][4..6], [(1016 & 0xFF) as u8, (1016 >> 8) as u8]);
}

#[test]
fn one_byte_image_is_one_padded_page() {
    let pages = image_pages(0, &[0x5A]);
    assert_eq!(pages.len(), 1);
    assert_eq!(pages[0][..9], [0x02, 0x07, 0, 1, 1, 0, 0, 0, 0x5A]);
    assert_eq!(pages[0].len(), PAGE_SIZE);
    assert!(pages[0][9..].iter().all(|&b| b == 0));
}

#[test]
fn page_numbers_are_contiguous_and_little_endian() {
    let img = vec![1u8; 300 * 1016];
    let pages = image_pages(2, &img);
    assert_eq!(pages.len(), 300);
    for (n, page) in pages.iter().enumerate() {
        assert_eq!(page[6] as usize + 256 * page[7] as usize, n);
        assert_eq!(page[3], if n == 299 { 1 } else { 0 });
    }
    assert_eq!(pages[256][6..8], [0, 1]);
    assert_eq!(build_page(2, &img, 256), pages[256]);
}

#[test]
fn matching_devices_keeps_host_order() {
    let target = key_pad_id();
    assert_eq!(
        target,
        DeviceId { vendor_id: 0x0fd9, product_id: 0x0080, usage: 0x0001, usage_page: 0x000c }
    );
    let other_usage = DeviceId { usage: 0x0006, ..target };
    let other_vendor = DeviceId { vendor_id: 0x046d, ..target };
    let list = [other_usage, target, other_vendor, target];
    assert_eq!(matching_devices(&list, target), vec![1, 3]);
    assert_eq!(matching_devices(&[other_usage], target), Vec::<usize>::new());
}

#[test]
fn page_payloads_reassemble_the_image() {
    for len in [0usize, 1, 1015, 1016, 1017, 5000] {
        let img: Vec<u8> = (0..len).map(|i| (i * 7 % 256) as u8).collect();
        let mut joined = Vec::new();
        for page in image_pages(9, &img) {
            let n = page[4] as usize + 256 * page[5] as usize;
            joined.extend_from_slice(&page[8..8 + n]);
        }
        assert_eq!(joined, img);
    }
}
