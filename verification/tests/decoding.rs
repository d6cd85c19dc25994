use stackmap::layout::padding_size;
use stackmap::location::{parse_live_out, parse_location};
use stackmap::record::parse_record;
use stackmap::stack_map::{parse_header, parse_stack_map};
use stackmap::wire::{entries, field_i32, field_u16, field_u32, field_u64, field_u8, region};
use stackmap::{ConstantPool, Error, ErrorKind, LLVMStackMaps, LocationKind};

fn eof(offset: usize) -> Error {
    Error::ParserError {
        offset,
        kind: ErrorKind::Eof,
    }
}

fn location(tag: u8, size: u16, register: u16, value: i32) -> Vec<u8> {
    let mut bytes = vec![tag, 0];
    bytes.extend_from_slice(&size.to_le_bytes());
    bytes.extend_from_slice(&register.to_le_bytes());
    bytes.extend_from_slice(&[0, 0]);
    bytes.extend_from_slice(&value.to_le_bytes());
    bytes
}

fn live_out(register: u16, size: u8) -> Vec<u8> {
    let mut bytes = register.to_le_bytes().to_vec();
    bytes.push(0xaa);
    bytes.push(size);
    bytes
}

fn pad_to_eight(bytes: &mut Vec<u8>) {
    while bytes.len() % 8 != 0 {
        bytes.push(0);
    }
}

fn record(id: u64, offset: u32, locations: &[Vec<u8>], live_outs: &[Vec<u8>]) -> Vec<u8> {
    let mut bytes = id.to_le_bytes().to_vec();
    bytes.extend_from_slice(&offset.to_le_bytes());
    bytes.extend_from_slice(&[0xff, 0xff]);
    bytes.extend_from_slice(&(locations.len() as u16).to_le_bytes());
    for entry in locations {
        bytes.extend_from_slice(entry);
    }
    pad_to_eight(&mut bytes);
    bytes.extend_from_slice(&[0xee, 0xee]);
    bytes.extend_from_slice(&(live_outs.len() as u16).to_le_bytes());
    for entry in live_outs {
        bytes.extend_from_slice(entry);
    }
    pad_to_eight(&mut bytes);
    bytes
}

fn stack_map(functions: &[(u64, u64, u64)], constants: &[u64], records: &[Vec<u8>]) -> Vec<u8> {
    let mut bytes = vec![3, 0, 0, 0];
    bytes.extend_from_slice(&(functions.len() as u32).to_le_bytes());
    bytes.extend_from_slice(&(constants.len() as u32).to_le_bytes());
    bytes.extend_from_slice(&(records.len() as u32).to_le_bytes());
    for (address, stack_size, record_count) in functions {
        bytes.extend_from_slice(&address.to_le_bytes());
        bytes.extend_from_slice(&stack_size.to_le_bytes());
        bytes.extend_from_slice(&record_count.to_le_bytes());
    }
    for constant in constants {
        bytes.extend_from_slice(&constant.to_le_bytes());
    }
    for entry in records {
        bytes.extend_from_slice(entry);
    }
    bytes
}

fn pool_bytes(constants: &[u64]) -> Vec<u8> {
    let mut bytes = Vec::new();
    for constant in constants {
        bytes.extend_from_slice(&constant.to_le_bytes());
    }
    bytes
}

#[test]
fn padding_size_completes_a_multiple_of_eight() {
    assert_eq!(padding_size(0, 8), 0);
    assert_eq!(padding_size(3, 8), 5);
    assert_eq!(padding_size(8, 8), 0);
    assert_eq!(padding_size(28, 8), 4);
    assert_eq!(padding_size(13, 4), 3);
    for n in 0..64usize {
        assert_eq!(padding_size(n, 8), (8 - n % 8) % 8);
        assert_eq!((n + padding_size(n, 8)) % 8, 0);
    }
}

#[test]
fn fields_are_little_endian() {
    let bytes: &[u8] = &[0x01, 0x02, 0x03, 0x04, 0x05, 0x06, 0x07, 0x08, 0x09];
    assert_eq!(field_u8(bytes, 1), Ok(0x02));
    assert_eq!(field_u16(bytes, 1), Ok(0x0302));
    assert_eq!(field_u32(bytes, 1), Ok(0x0504_0302));
    assert_eq!(field_u64(bytes, 1), Ok(0x0908_0706_0504_0302));
    assert_eq!(field_i32(bytes, 0), Ok(0x0403_0201));
    assert_eq!(field_i32(&[0xf6, 0xff, 0xff, 0xff], 0), Ok(-10));
    assert_eq!(field_i32(&[0x00, 0x00, 0x00, 0x80], 0), Ok(i32::MIN));
    assert_eq!(field_u64(&[0xff; 8], 0), Ok(u64::MAX));
}

#[test]
fn fields_that_do_not_fit_report_where_they_start() {
    let bytes: &[u8] = &[0x01, 0x02, 0x03, 0x04, 0x05, 0x06, 0x07, 0x08, 0x09];
    assert_eq!(field_u8(bytes, 9), Err(eof(9)));
    assert_eq!(field_u16(bytes, 8), Err(eof(8)));
    assert_eq!(field_u32(bytes, 6), Err(eof(6)));
    assert_eq!(field_u64(bytes, 2), Err(eof(2)));
    assert_eq!(field_i32(bytes, 7), Err(eof(7)));
}

#[test]
fn regions_are_borrowed_in_place() {
    let bytes: &[u8] = &[10, 11, 12, 13, 14, 15];
    assert_eq!(region(bytes, 2, 3), Ok(&bytes[2..5]));
    assert_eq!(region(bytes, 6, 0), Ok(&bytes[6..6]));
    assert_eq!(region(bytes, 2, 5), Err(eof(2)));
    assert_eq!(entries(bytes, 1, 2, 2), Ok(&bytes[1..5]));
    assert_eq!(entries(bytes, 1, 3, 2), Err(eof(1)));
    assert_eq!(entries(bytes, 0, u32::MAX, 24), Err(eof(0)));
}

#[test]
fn constant_pool_decodes_on_lookup() {
    let bytes = pool_bytes(&[7, 0x1122_3344_5566_7788, u64::MAX]);
    let pool = ConstantPool::new(&bytes);
    assert_eq!(pool.len(), 3);
    assert_eq!(pool.get(0), Some(7));
    assert_eq!(pool.get(1), Some(0x1122_3344_5566_7788));
    assert_eq!(pool.get(2), Some(u64::MAX));
    assert_eq!(pool.get(3), None);
}

#[test]
fn location_kinds_follow_the_tag() {
    let constants = pool_bytes(&[100, 200]);
    let pool = ConstantPool::new(&constants);

    let bytes = location(1, 4, 7, 99);
    let (rest, found) = parse_location(&bytes, pool).unwrap();
    assert!(rest.is_empty());
    assert_eq!(*found.kind(), LocationKind::Register(7));
    assert_eq!(found.size(), 4);

    let bytes = location(2, 8, 6, -10);
    let (_, found) = parse_location(&bytes, pool).unwrap();
    assert_eq!(
        *found.kind(),
        LocationKind::Direct {
            register: 6,
            offset: -10
        }
    );

    let bytes = location(3, 8, 5, 24);
    let (_, found) = parse_location(&bytes, pool).unwrap();
    assert_eq!(
        *found.kind(),
        LocationKind::Indirect {
            register: 5,
            offset: 24
        }
    );

    let bytes = location(4, 8, 0, 1234);
    let (_, found) = parse_location(&bytes, pool).unwrap();
    assert_eq!(*found.kind(), LocationKind::Constant(1234));
}

#[test]
fn negative_small_constant_is_sign_extended() {
    let pool = ConstantPool::new(&[]);
    let bytes = location(4, 8, 0, -1);
    let (_, found) = parse_location(&bytes, pool).unwrap();
    assert_eq!(*found.kind(), LocationKind::Constant(u64::MAX));

    let bytes = location(4, 8, 0, i32::MIN);
    let (_, found) = parse_location(&bytes, pool).unwrap();
    assert_eq!(*found.kind(), LocationKind::Constant(0xffff_ffff_8000_0000));
}

#[test]
fn pooled_constant_resolves_by_index() {
    let constants = pool_bytes(&[100, 200, 0xdead_beef_0000_0001]);
    let pool = ConstantPool::new(&constants);
    for (index, expected) in [(0, 100u64), (1, 200), (2, 0xdead_beef_0000_0001)] {
        let bytes = location(5, 8, 0, index);
        let (_, found) = parse_location(&bytes, pool).unwrap();
        assert_eq!(*found.kind(), LocationKind::Constant(expected));
    }
}

#[test]
fn pooled_constant_out_of_range_is_refused() {
    let constants = pool_bytes(&[100, 200]);
    let pool = ConstantPool::new(&constants);
    for index in [2, 3, i32::MAX, -1, i32::MIN] {
        let bytes = location(5, 8, 0, index);
        assert_eq!(
            parse_location(&bytes, pool).unwrap_err(),
            Error::InvalidConstantIndex { index }
        );
    }
    let empty = ConstantPool::new(&[]);
    let bytes = location(5, 8, 0, 0);
    assert_eq!(
        parse_location(&bytes, empty).unwrap_err(),
        Error::InvalidConstantIndex { index: 0 }
    );
}

#[test]
fn unknown_location_tag_is_refused() {
    let pool = ConstantPool::new(&[]);
    for tag in [0u8, 6, 7, 0x80, 0xff] {
        let bytes = location(tag, 8, 0, 0);
        assert_eq!(
            parse_location(&bytes, pool).unwrap_err(),
            Error::InvalidLocationKind { invalid_kind: tag }
        );
    }
}

#[test]
fn location_reserved_fields_must_be_zero() {
    let pool = ConstantPool::new(&[]);
    let mut bytes = location(1, 8, 0, 0);
    bytes[1] = 1;
    assert_eq!(
        parse_location(&bytes, pool).unwrap_err(),
        Error::MalformedReserved
    );
    let mut bytes = location(1, 8, 0, 0);
    bytes[7] = 1;
    assert_eq!(
        parse_location(&bytes, pool).unwrap_err(),
        Error::MalformedReserved
    );
    let mut bytes = location(9, 8, 0, 0);
    bytes[6] = 1;
    assert_eq!(
        parse_location(&bytes, pool).unwrap_err(),
        Error::MalformedReserved
    );
}

#[test]
fn short_location_reports_the_field_that_is_cut() {
    let pool = ConstantPool::new(&[]);
    let bytes = location(1, 8, 0, 0);
    let cut_at = [0usize, 1, 2, 2, 4, 4, 6, 6, 8, 8, 8, 8];
    for len in 0..12 {
        assert_eq!(
            parse_location(&bytes[..len], pool).unwrap_err(),
            eof(cut_at[len])
        );
    }
}

#[test]
fn live_out_ignores_its_reserved_byte() {
    let bytes = live_out(0x0107, 8);
    let (rest, found) = parse_live_out(&bytes).unwrap();
    assert!(rest.is_empty());
    assert_eq!(found.dwarf_reg_num(), 0x0107);
    assert_eq!(found.size(), 8);
    assert_eq!(parse_live_out(&bytes[..1]).unwrap_err(), eof(0));
    assert_eq!(parse_live_out(&bytes[..2]).unwrap_err(), eof(2));
    assert_eq!(parse_live_out(&bytes[..3]).unwrap_err(), eof(3));
}

#[test]
fn record_regions_are_padded_to_eight() {
    let pool = ConstantPool::new(&[]);
    let bytes = record(
        0x0102_0304_0506_0708,
        0x20,
        &[location(1, 8, 3, 0), location(4, 4, 0, 77)],
        &[live_out(7, 8), live_out(9, 4), live_out(11, 2)],
    );
    assert_eq!(bytes.len(), 16 + 24 + 4 + 12);
    let mut followed = bytes.clone();
    followed.extend_from_slice(&[1, 2, 3]);

    let (rest, found) = parse_record(&followed, pool).unwrap();
    assert_eq!(rest, &[1, 2, 3]);
    assert_eq!(found.patch_point_id(), 0x0102_0304_0506_0708);
    assert_eq!(found.instruction_offset(), 0x20);
    assert_eq!(found.num_locations(), 2);
    assert_eq!(found.num_live_outs(), 3);

    let locations = found.locations().collect().unwrap();
    assert_eq!(locations.len(), 2);
    assert_eq!(*locations[0].kind(), LocationKind::Register(3));
    assert_eq!(*locations[1].kind(), LocationKind::Constant(77));
    assert_eq!(locations[1].size(), 4);

    let live_outs = found.live_outs().collect().unwrap();
    assert_eq!(live_outs.len(), 3);
    assert_eq!(live_outs[0].dwarf_reg_num(), 7);
    assert_eq!(live_outs[1].dwarf_reg_num(), 9);
    assert_eq!(live_outs[2].dwarf_reg_num(), 11);
    assert_eq!(live_outs[2].size(), 2);
}

#[test]
fn record_with_one_location_has_four_bytes_of_padding() {
    let pool = ConstantPool::new(&[]);
    let bytes = record(1, 2, &[location(1, 8, 3, 0)], &[]);
    assert_eq!(bytes.len(), 16 + 12 + 4 + 4 + 4);
    let (rest, found) = parse_record(&bytes, pool).unwrap();
    assert!(rest.is_empty());
    assert_eq!(found.num_locations(), 1);
    assert_eq!(found.num_live_outs(), 0);
}

#[test]
fn short_record_reports_the_part_that_is_cut() {
    let pool = ConstantPool::new(&[]);
    let bytes = record(1, 2, &[location(1, 8, 3, 0)], &[live_out(7, 8)]);
    assert_eq!(bytes.len(), 40);
    let cut_at = |len: usize| -> usize {
        match len {
            0..=7 => 0,
            8..=11 => 8,
            12..=13 => 12,
            14..=15 => 14,
            16..=27 => 16,
            28..=31 => 28,
            32..=33 => 32,
            34..=35 => 34,
            _ => 36,
        }
    };
    for len in 0..40 {
        assert_eq!(
            parse_record(&bytes[..len], pool).unwrap_err(),
            eof(cut_at(len))
        );
    }
    assert!(parse_record(&bytes, pool).is_ok());
}

#[test]
fn record_without_final_padding_is_cut() {
    let pool = ConstantPool::new(&[]);
    let bytes = record(1, 2, &[], &[live_out(7, 8), live_out(8, 8)]);
    assert_eq!(bytes.len(), 32);
    assert_eq!(parse_record(&bytes[..27], pool).unwrap_err(), eof(20));
    assert_eq!(parse_record(&bytes[..28], pool).unwrap_err(), eof(28));
    assert_eq!(parse_record(&bytes[..31], pool).unwrap_err(), eof(28));
    let whole = record(1, 2, &[], &[live_out(7, 8)]);
    assert_eq!(whole.len(), 24);
    assert!(parse_record(&whole, pool).unwrap().0.is_empty());
}

#[test]
fn header_is_checked_before_the_version() {
    assert_eq!(parse_header(&[3, 0, 0, 0, 9]).unwrap(), (&[9u8][..], 3));
    assert_eq!(parse_header(&[7, 0, 0, 0]).unwrap(), (&[][..], 7));
    assert_eq!(parse_header(&[3, 1, 0, 0]).unwrap_err(), Error::MalformedHeader);
    assert_eq!(parse_header(&[3, 0, 1, 0]).unwrap_err(), Error::MalformedHeader);
    assert_eq!(parse_header(&[3, 0, 0, 1]).unwrap_err(), Error::MalformedHeader);
    assert_eq!(parse_header(&[4, 1, 0, 0]).unwrap_err(), Error::MalformedHeader);
    assert_eq!(parse_header(&[]).unwrap_err(), eof(0));
    assert_eq!(parse_header(&[3]).unwrap_err(), eof(1));
    assert_eq!(parse_header(&[3, 0]).unwrap_err(), eof(2));
    assert_eq!(parse_header(&[3, 0, 0]).unwrap_err(), eof(2));
}

#[test]
fn unsupported_version_needs_no_more_than_the_header() {
    for version in [0u8, 1, 2, 4, 0xff] {
        assert_eq!(
            parse_stack_map(&[version, 0, 0, 0]).unwrap_err(),
            Error::UnsupportedVersion
        );
        let mut bytes = stack_map(&[], &[], &[]);
        bytes[0] = version;
        assert_eq!(
            parse_stack_map(&bytes).unwrap_err(),
            Error::UnsupportedVersion
        );
        let section = LLVMStackMaps::new(&bytes);
        assert_eq!(
            section.stack_maps().next().unwrap_err(),
            Error::UnsupportedVersion
        );
    }
}

#[test]
fn short_stack_map_reports_the_part_that_is_cut() {
    let bytes = stack_map(
        &[(0x1000, 16, 1)],
        &[5, 6],
        &[record(1, 2, &[location(5, 8, 0, 1)], &[])],
    );
    assert_eq!(bytes.len(), 16 + 24 + 16 + 40);
    let cut_at = |len: usize| -> usize {
        match len {
            0 => 0,
            1 => 1,
            2..=3 => 2,
            4..=7 => 4,
            8..=11 => 8,
            12..=15 => 12,
            16..=39 => 16,
            40..=55 => 40,
            56..=63 => 56,
            64..=67 => 64,
            68..=69 => 68,
            70..=71 => 70,
            72..=83 => 72,
            84..=87 => 84,
            88..=89 => 88,
            90..=91 => 90,
            _ => 92,
        }
    };
    for len in 0..bytes.len() {
        assert_eq!(
            parse_stack_map(&bytes[..len]).unwrap_err(),
            eof(cut_at(len))
        );
    }
    let (rest, found) = parse_stack_map(&bytes).unwrap();
    assert!(rest.is_empty());
    assert_eq!(found.version(), 3);
    assert_eq!(found.num_functions(), 1);
}

#[test]
fn counts_larger_than_the_buffer_are_cut() {
    let mut bytes = vec![3, 0, 0, 0];
    bytes.extend_from_slice(&u32::MAX.to_le_bytes());
    bytes.extend_from_slice(&u32::MAX.to_le_bytes());
    bytes.extend_from_slice(&u32::MAX.to_le_bytes());
    assert_eq!(parse_stack_map(&bytes).unwrap_err(), eof(16));

    let mut bytes = vec![3, 0, 0, 0];
    bytes.extend_from_slice(&0u32.to_le_bytes());
    bytes.extend_from_slice(&u32::MAX.to_le_bytes());
    bytes.extend_from_slice(&0u32.to_le_bytes());
    assert_eq!(parse_stack_map(&bytes).unwrap_err(), eof(16));

    let mut bytes = vec![3, 0, 0, 0];
    bytes.extend_from_slice(&0u32.to_le_bytes());
    bytes.extend_from_slice(&0u32.to_le_bytes());
    bytes.extend_from_slice(&u32::MAX.to_le_bytes());
    assert_eq!(parse_stack_map(&bytes).unwrap_err(), eof(16));
}
