use hgl_sim::bit_range::{BitRange, BitRangeMut};
use hgl_sim::bv::Bv;
use hgl_sim::fmt;
use hgl_sim::sim_format_value::SimFormatValue;

#[test]
fn test_bv_format() -> Result<(), String> {
    for i in 0..128 {
        assert_eq!(
            &SimFormatValue::value_string(&Bv::<7>::of_u64(i), fmt::AS_BIN),
            &format!("{:07b}", i)
        );
        assert_eq!(
            &SimFormatValue::value_string(&Bv::<7>::of_u64(i), fmt::AS_HEX | fmt::AS_BIN),
            &format!("{:02x}", i)
        );
        assert_eq!(
            &SimFormatValue::value_string(&Bv::<7>::of_u64(i), fmt::AS_BIN | fmt::HDR),
            &format!("7b{:07b}", i)
        );
        assert_eq!(
            &SimFormatValue::value_string(
                &Bv::<7>::of_u64(i),
                fmt::AS_HEX | fmt::AS_BIN | fmt::HDR
            ),
            &format!("7h{:02x}", i)
        );
    }
    Ok(())
}

fn test_bvn<const N: usize>() -> Result<(), String> {
    let bv = Bv::<N>::default();
    assert!(bv.is_zero(), "Bit vector default value is zero");
    let mut bv2 = bv;
    bv2.bit_set(0, true);
    assert!(bv.is_zero(), "Bit vector default value is zero");
    assert!(!bv2.is_zero(), "Bit vector with bottom bit set is not zero");

    bv2 += bv2;
    let mut v = 2;
    if N == 1 {
        v = 0;
        assert!(
            bv2.is_zero(),
            "Bit vector of should-be-2 must be zero {}",
            bv2.debug_string()
        );
    } else {
        assert!(
            !bv2.is_zero(),
            "Bit vector of 1+1 must be not zero {}",
            bv2.debug_string()
        );
    }

    if N < 8 {
        assert_eq!(
            &format!("{}b{:0width$b}", N, v, width = N),
            &bv2.debug_string(),
            "Mismatch of debug"
        );
    } else {
        assert_eq!(
            &format!("{}h{:0width$x}", N, v, width = (N + 3) / 4),
            &bv2.debug_string(),
            "Mismatch of debug"
        );
    }
    Ok(())
}

#[test]
fn construct_1() -> Result<(), String> {
    test_bvn::<1>()?;
    Ok(())
}

#[test]
fn construct_2() -> Result<(), String> {
    test_bvn::<2>()?;
    Ok(())
}

#[test]
fn construct_3() -> Result<(), String> {
    test_bvn::<3>()?;
    Ok(())
}

#[test]
fn construct_32() -> Result<(), String> {
    test_bvn::<32>()?;
    Ok(())
}

#[test]
fn construct_64() -> Result<(), String> {
    test_bvn::<64>()?;
    Ok(())
}

#[test]
fn test_bv_construct_128() -> Result<(), String> {
    test_bvn::<128>()?;
    Ok(())
}

#[test]
fn bv_arith_wraps() {
    let a = Bv::<8>::of_u64(200);
    let b = Bv::<8>::of_u64(100);
    assert_eq!((a + b).try_as_u64(), Some(44));
    assert_eq!((b - a).try_as_u64(), Some(156));
    assert_eq!((a - b).try_as_u64(), Some(100));
    assert!(((a + b) - b) == a);
    assert_eq!((!a).try_as_u64(), Some(55));
    assert_eq!((a & b).try_as_u64(), Some(200 & 100));
    assert_eq!((a | b).try_as_u64(), Some(200 | 100));
    assert_eq!((a ^ b).try_as_u64(), Some(200 ^ 100));
    assert_eq!((a << 1).try_as_u64(), Some(144));
    assert_eq!((a >> 3).try_as_u64(), Some(25));
    assert_eq!(Bv::<70>::of_u64(5).try_as_u64(), None);
}

#[test]
fn bv_format_wide() {
    let a = Bv::<12>::of_u64(0xabc);
    assert_eq!(SimFormatValue::value_string(&a, fmt::FULL), "12habc");
    assert_eq!(SimFormatValue::value_string(&a, fmt::AS_BIN), "101010111100");
    assert_eq!(SimFormatValue::value_string(&a, 0).len(), fmt::MAX_STRING_LENGTH);
    assert_eq!(SimFormatValue::new(&a, fmt::AS_HEX).as_string(), "abc");
}

#[test]
fn bv_laws_on_values() {
    for x in [0u64, 1, 5, 127, 200, 255] {
        let a = Bv::<8>::of_u64(x);
        assert!(!!a == a);
        assert!((a ^ a).is_zero());
        for y in [0u64, 3, 128, 255] {
            let b = Bv::<8>::of_u64(y);
            assert!((a + b) - b == a);
            assert_eq!(a < b, x < y);
            assert_eq!(a <= b, x <= y);
            assert_eq!(a.cmp_value(&b), x.cmp(&y));
            assert_eq!(a.less_or_equal(&b), (x < y, x == y));
        }
    }
}

#[test]
fn bv_bits_and_ranges() {
    let mut a = Bv::<12>::of_u64(0);
    a.bit_set(3, true);
    a.bit_set(11, true);
    assert!(a.bit(3) && a.bit(11) && !a.bit(4));
    assert!(a.bit_as_bit(3).is_true());
    assert_eq!(a.try_as_u64(), Some(0x808));
    a.bit_set(3, false);
    assert_eq!(a.try_as_u64(), Some(0x800));
    assert_eq!(a.num_bits(), 12);
    assert_eq!(a.as_u8s(), &[0x00, 0x08]);
    let b = Bv::<12>::of_u64(0xabc);
    let c: Bv<4> = b.bit_range_to_bv(4, 4);
    assert_eq!(c.try_as_u64(), Some(0xb));
    let mut d = Bv::<12>::of_u64(0);
    d.set_bits(8, c.as_bit_range());
    assert_eq!(d.try_as_u64(), Some(0xb00));
    let e = Bv::<4>::of_bit_range(b.bits(8, 4));
    assert_eq!(e.try_as_u64(), Some(0xa));
    assert_eq!(b.bit_range(0, 8).num_bits(), 8);
    assert_eq!(Bv::<8>::of_u64(1).signed_neg().try_as_u64(), Some(255));
    assert_eq!(Bv::<8>::of_u64(0).signed_neg().try_as_u64(), Some(0));
    let mut z = b;
    z.zero();
    assert!(z.is_zero());
    assert_eq!(Bv::<12>::width(), 12);
    assert_eq!(Bv::<12>::num_bytes(), 2);
    assert_eq!(Bv::<300>::width(), 264);
}

#[test]
fn bit_range_mut_writes_through() {
    let mut data = [0u8; 2];
    let src = [0xabu8];
    {
        let mut r = BitRangeMut::of_u8s(&mut data, 4, 8);
        assert_eq!(r.num_bits(), 8);
        r.set_rt(BitRange::of_u8s(&src, 0, 8));
    }
    assert_eq!(data, [0xb0, 0x0a]);
    {
        let mut r = BitRangeMut::of_u8s(&mut data, 0, 4);
        r.set::<4>(BitRange::of_u8s(&src, 4, 4));
    }
    assert_eq!(data, [0xba, 0x0a]);
    {
        let mut r = BitRangeMut::of_u8s(&mut data, 8, 4);
        r.set::<4>(BitRange::of_u8s(&src, 0, 4));
    }
    assert_eq!(data, [0xba, 0x0b]);
    {
        let mut r = BitRangeMut::of_u8s(&mut data, 8, 4);
        r.set::<4>(BitRange::of_u8s(&src, 4, 4));
    }
    assert_eq!(data, [0xba, 0x0a]);
    let br = BitRange::of_u8s(&data, 4, 8);
    assert!(br.bit_at(0) && br.bit_at(1) && !br.bit_at(2) && br.bit_at(3));
    let br: BitRange = BitRangeMut::of_u8s(&mut data, 4, 8).into();
    assert_eq!(br.num_bits(), 8);
    assert!(br.bit_at(0) && br.bit_at(1) && !br.bit_at(2) && br.bit_at(3));
}

#[test]
fn bv_randomize_uses_one_draw_per_byte() {
    let a = Bv::<12>::randomize(&[0x1ff, 0xfff]);
    assert_eq!(a.try_as_u64(), Some(0xfff));
    let b = Bv::<5>::randomize(&[0b1010_1010]);
    assert_eq!(b.try_as_u64(), Some(0b01010));
    let c = Bv::<16>::randomize(&[0x12_34, 0x56_78]);
    assert_eq!(c.try_as_u64(), Some(0x7834));
    assert!(Bv::<12>::randomize(&[0x1ff, 0xfff]) == a);
    assert!(hgl_sim::bit::Bit::randomize(3).is_true());
    assert!(hgl_sim::bit::Bit::randomize(2).is_false());
}

#[test]
fn bv_bytes_are_little_endian() {
    let x = Bv::<12>::of_u64(0xabc);
    assert_eq!(x.as_u8s(), &[0xbc, 0x0a]);
    let y = Bv::<12>::of_bit_range(x.as_bit_range());
    assert!(y == x);
    let z = Bv::<12>::of_bit_range(x.bit_range(0, 12));
    assert_eq!(z.try_as_u64(), Some(0xabc));
}
