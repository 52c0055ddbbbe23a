use sol_grid::Codec;
use sol_grid::Voxel;

const RED: [u8; 4] = [255, 0, 0, 255];
const RED_SLICE: [u8; 8] = [255, 0, 0, 255, 0, 0, 0, 0];

fn red_voxel() -> Voxel {
    <Voxel as Codec>::from_slice(&RED_SLICE)
}

#[test]
fn test_u32_as_slice() {
    let value = 1u32.as_slice();
    let slice = [1, 0, 0, 0];
    assert_eq!(value, slice);
}

#[test]
fn test_u32_from_slice() {
    let slice = [1, 0, 0, 0];
    let value = <u32 as Codec>::from_slice(&slice);
    assert_eq!(value, 1);
}

#[test]
fn test_voxel_as_rgba() {
    assert_eq!(red_voxel().as_rgba(), RED);
}

#[test]
fn test_voxel_from_rgba() {
    assert_eq!(Voxel::from_rgba(&RED), red_voxel());
}

#[test]
fn test_voxel_as_slice() {
    assert_eq!(red_voxel().as_slice(), RED_SLICE);
}

#[test]
fn test_voxel_from_slice() {
    assert_eq!(<Voxel as Codec>::from_slice(&RED_SLICE), red_voxel());
}

#[test]
fn test_voxel_rgba_round_trip_all_channel_values() {
    for b in [0u8, 1, 2, 127, 128, 254, 255] {
        let rgba = [b, b.wrapping_add(1), 255 - b, b];
        let v = Voxel::from_rgba(&rgba);
        assert_eq!(v.as_rgba(), rgba);
        let bytes = v.as_slice();
        assert_eq!(&bytes[4..], &[0, 0, 0, 0]);
    }
}

#[test]
fn test_u32_codec_round_trip() {
    for x in [0u32, 1, 255, 256, 0xdead_beef, u32::MAX] {
        let bytes = x.as_slice();
        assert_eq!(bytes.len(), 4);
        assert_eq!(<u32 as Codec>::from_slice(&bytes), x);
    }
}

#[test]
fn test_codec_sizes() {
    assert_eq!(<Voxel as Codec>::size(), 8);
    assert_eq!(<u32 as Codec>::size(), 4);
}
