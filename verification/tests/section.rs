use stackmap::{LLVMStackMaps, LocationKind};

#[test]
fn empty_stackmap() {
    let data: &[u8] = &[
        0x03, 0x00, 0x00, 0x00, 0x00, 0x00, 0x00, 0x00, 0x00, 0x00, 0x00, 0x00, 0x00, 0x00,
        0x00, 0x00,
    ];
    let section = LLVMStackMaps::new(data);
    let stack_maps: Vec<_> = section.stack_maps().collect().unwrap();
    assert_eq!(stack_maps.len(), 1);
    assert_eq!(stack_maps[0].version(), 3);
}

#[test]
fn single_function_record_location() {
    let data: &[u8] = &[
        0x03, 0x00, 0x00, 0x00, 0x01, 0x00, 0x00, 0x00, 0x00, 0x00, 0x00, 0x00, 0x01, 0x00,
        0x00, 0x00, 0xc0, 0x11, 0x00, 0x00, 0x00, 0x00, 0x00, 0x00, 0x58, 0x00, 0x00, 0x00,
        0x00, 0x00, 0x00, 0x00, 0x01, 0x00, 0x00, 0x00, 0x00, 0x00, 0x00, 0x00, 0x2a, 0x00,
        0x00, 0x00, 0x00, 0x00, 0x00, 0x00, 0x0f, 0x00, 0x00, 0x00, 0x00, 0x00, 0x01, 0x00,
        0x02, 0x00, 0x08, 0x00, 0x06, 0x00, 0x00, 0x00, 0xf6, 0xff, 0xff, 0xff, 0x00, 0x00,
        0x00, 0x00, 0x00, 0x00, 0x00, 0x00, 0x00, 0x00, 0x00, 0x00,
    ];
    let section = LLVMStackMaps::new(data);
    let stack_maps: Vec<_> = section.stack_maps().collect().unwrap();
    assert_eq!(stack_maps.len(), 1);
    assert_eq!(stack_maps[0].version(), 3);

    let functions: Vec<_> = stack_maps[0].functions().collect().unwrap();
    assert_eq!(functions.len(), 1);
    assert_eq!(functions[0].address(), 0x11c0);
    assert_eq!(functions[0].stack_size(), 88);

    let records: Vec<_> = functions[0].records().collect().unwrap();
    assert_eq!(records.len(), 1);
    assert_eq!(records[0].patch_point_id(), 42);
    assert_eq!(records[0].instruction_offset(), 15);

    let locations: Vec<_> = records[0].locations().collect().unwrap();
    assert_eq!(locations.len(), 1);
    assert_eq!(
        *locations[0].kind(),
        LocationKind::Direct {
            register: 6,
            offset: -10
        }
    );
    assert_eq!(locations[0].size(), 8);

    let live_outs: Vec<_> = records[0].live_outs().collect().unwrap();
    assert!(live_outs.is_empty());
}

#[test]
fn lifetimes_test() {
    let data: &[u8] = &[
        0x03, 0x00, 0x00, 0x00, 0x01, 0x00, 0x00, 0x00, 0x00, 0x00, 0x00, 0x00, 0x01, 0x00,
        0x00, 0x00, 0xc0, 0x11, 0x00, 0x00, 0x00, 0x00, 0x00, 0x00, 0x58, 0x00, 0x00, 0x00,
        0x00, 0x00, 0x00, 0x00, 0x01, 0x00, 0x00, 0x00, 0x00, 0x00, 0x00, 0x00, 0x2a, 0x00,
        0x00, 0x00, 0x00, 0x00, 0x00, 0x00, 0x0f, 0x00, 0x00, 0x00, 0x00, 0x00, 0x01, 0x00,
        0x02, 0x00, 0x08, 0x00, 0x06, 0x00, 0x00, 0x00, 0xf6, 0xff, 0xff, 0xff, 0x00, 0x00,
        0x00, 0x00, 0x00, 0x00, 0x00, 0x00, 0x00, 0x00, 0x00, 0x00,
    ];
    let section = LLVMStackMaps::new(data);

    let stack_map;
    let function;
    let record;
    let location;
    {
        let stack_maps: Vec<_> = section.stack_maps().collect().unwrap();
        assert_eq!(stack_maps.len(), 1);
        stack_map = Some(stack_maps[0].clone());
        {
            let functions: Vec<_> = stack_maps[0].functions().collect().unwrap();
            assert_eq!(functions.len(), 1);
            function = Some(functions[0].clone());
            {
                let records: Vec<_> = functions[0].records().collect().unwrap();
                assert_eq!(records.len(), 1);
                record = Some(records[0].clone());
                {
                    let locations: Vec<_> = records[0].locations().collect().unwrap();
                    assert_eq!(locations.len(), 1);
                    location = Some(locations[0].clone());
                }
            }
        }
    }

    let stack_map = stack_map.unwrap();
    assert_eq!(stack_map.version(), 3);

    let function = function.unwrap();
    assert_eq!(function.address(), 0x11c0);
    assert_eq!(function.stack_size(), 88);

    let record = record.unwrap();
    assert_eq!(record.patch_point_id(), 42);
    assert_eq!(record.instruction_offset(), 15);

    let location = location.unwrap();
    assert_eq!(
        *location.kind(),
        LocationKind::Direct {
            register: 6,
            offset: -10
        }
    );
    assert_eq!(location.size(), 8);
}
