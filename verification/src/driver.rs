//! The display driver: composes a panel transport with a dirty-region set,
//! and exposes whole-frame and region-scoped transfer operations. Every
//! contract states exactly which port actions a successful call appends to
//! the transport's history.

use vstd::prelude::*;
use crate::dirty::DIRTY_REGION_CAPACITY;
use crate::dirty::DirtyRegionSet;
use crate::instruction::Instruction;
use crate::protocol::STREAM_CHUNK_SIZE;
use crate::protocol::be_word;
use crate::protocol::chunked_data_events;
use crate::protocol::clear_events;
use crate::protocol::command_events;
use crate::protocol::data_events;
use crate::protocol::draw_image_events;
use crate::protocol::fill_chunk_bytes;
use crate::protocol::pixel_events;
use crate::protocol::region_events;
use crate::protocol::region_row_bytes;
use crate::protocol::regions_events;
use crate::protocol::repeat_data_events;
use crate::protocol::rows_events;
use crate::protocol::show_events;
use crate::protocol::window_events;
use crate::protocol::word_events;
use crate::region::Region;
use crate::transport::PanelTransport;
use crate::transport::TxEvent;

verus! {

broadcast use crate::transport::lemma_prefix_of_add, crate::transport::lemma_prefix_of_push, crate::transport::lemma_prefix_of_trans;

/// Display orientation, named by the memory-access-control value that
/// selects it.
#[derive(Copy, Clone)]
pub enum Orientation {
    Portrait,
    Landscape,
    PortraitSwapped,
    LandscapeSwapped,
}

impl Orientation {
    /// The memory-access-control byte for this orientation.
    pub open spec fn spec_code(self) -> u8 {
        match self {
            Orientation::Portrait => 0x00,
            Orientation::Landscape => 0x60,
            Orientation::PortraitSwapped => 0xC0,
            Orientation::LandscapeSwapped => 0xA0,
        }
    }

    /// The memory-access-control byte for this orientation.
    #[verifier::when_used_as_spec(spec_code)]
    pub fn code(self) -> (r: u8)
        ensures
            r == self.spec_code(),
    {
        match self {
            Orientation::Portrait => 0x00,
            Orientation::Landscape => 0x60,
            Orientation::PortraitSwapped => 0xC0,
            Orientation::LandscapeSwapped => 0xA0,
        }
    }
}

/// The memory-access-control parameter actually sent for an orientation: on
/// a BGR panel the BGR-order bit is set alongside the orientation code.
pub open spec fn orientation_byte(o: Orientation, rgb: bool) -> u8 {
    if rgb {
        o.spec_code()
    } else {
        o.spec_code() | 0x08
    }
}

/// Whether a region can be pushed to a `width` x `height` panel whose
/// address windows carry the calibration offset `(dx, dy)`: it is
/// non-degenerate, lies inside the panel, and its offset window coordinates
/// fit the 16-bit coordinate space.
pub open spec fn region_fits(r: Region, width: u32, height: u32, dx: u16, dy: u16) -> bool {
    &&& 1 <= r.width
    &&& 1 <= r.height
    &&& r.x + r.width <= width
    &&& r.y + r.height <= height
    &&& r.x + r.width - 1 + dx <= 0xFFFF
    &&& r.y + r.height - 1 + dy <= 0xFFFF
}

/// The opening of the power-on script: a hard reset followed by the first
/// run of vendor register writes.
pub open spec fn init_events_a() -> Seq<TxEvent> {
    seq![TxEvent::Rst(true), TxEvent::Rst(false), TxEvent::Rst(true)] + command_events(
        0xEF,
        Seq::empty(),
    ) + command_events(0xEB, seq![0x14u8]) + command_events(0xFE, Seq::empty()) + command_events(
        0xEF,
        Seq::empty(),
    ) + command_events(0xEB, seq![0x14u8]) + command_events(0x84, seq![0x40u8]) + command_events(
        0x85,
        seq![0xFFu8],
    ) + command_events(0x86, seq![0xFFu8]) + command_events(0x87, seq![0xFFu8]) + command_events(
        0x88,
        seq![0x0Au8],
    ) + command_events(0x89, seq![0x21u8]) + command_events(0x8A, seq![0x00u8])
}

/// The opening of the second run of the power-on script: the remaining
/// inter-register writes and display function control.
pub open spec fn init_events_b1() -> Seq<TxEvent> {
    command_events(0x8B, seq![0x80u8]) + command_events(0x8C, seq![0x01u8]) + command_events(
        0x8D,
        seq![0x01u8],
    ) + command_events(0x8E, seq![0xFFu8]) + command_events(0x8F, seq![0xFFu8]) + command_events(
        Instruction::DisSet5.spec_code(),
        seq![0x00u8, 0x20u8],
    )
}

/// The close of the second run of the power-on script: memory access
/// control, the pixel format, and further vendor registers.
pub open spec fn init_events_b2() -> Seq<TxEvent> {
    command_events(Instruction::MadCtl.spec_code(), seq![0x98u8]) + command_events(
        Instruction::ColMod.spec_code(),
        seq![0x05u8],
    ) + command_events(0x90, seq![0x08u8, 0x08u8, 0x08u8, 0x08u8]) + command_events(
        0xBD,
        seq![0x06u8],
    ) + command_events(0xBC, seq![0x00u8]) + command_events(0xFF, seq![0x60u8, 0x01u8, 0x04u8])
}

/// The second run of the power-on script: the remaining inter-register
/// writes, display function control, memory access control, and the pixel
/// format.
pub open spec fn init_events_b() -> Seq<TxEvent> {
    init_events_b1() + init_events_b2()
}

/// The third run of the power-on script: power control and gamma
/// correction.
pub open spec fn init_events_c() -> Seq<TxEvent> {
    command_events(Instruction::PwCtr4.spec_code(), seq![0x13u8]) + command_events(
        Instruction::PwCtr5.spec_code(),
        seq![0x13u8],
    ) + command_events(0xC9, seq![0x22u8]) + command_events(0xBE, seq![0x11u8]) + command_events(
        Instruction::GmcTrn1.spec_code(),
        seq![0x10u8, 0x0Eu8],
    ) + command_events(0xDF, seq![0x21u8, 0x0Cu8, 0x02u8]) + command_events(
        Instruction::GmcTrp1.spec_code(),
        seq![0x45u8, 0x09u8, 0x08u8, 0x08u8, 0x26u8, 0x2Au8],
    ) + command_events(0xF1, seq![0x43u8, 0x70u8, 0x72u8, 0x36u8, 0x37u8, 0x6Fu8])
        + command_events(0xF2, seq![0x45u8, 0x09u8, 0x08u8, 0x08u8, 0x26u8, 0x2Au8])
        + command_events(0xF3, seq![0x43u8, 0x70u8, 0x72u8, 0x36u8, 0x37u8, 0x6Fu8])
        + command_events(0xED, seq![0x1Bu8, 0x0Bu8]) + command_events(0xAE, seq![0x77u8])
        + command_events(0xCD, seq![0x63u8])
}

/// The last run of the power-on script: frame rate control, the vendor
/// timing tables, inversion, sleep-out, and display-on.
pub open spec fn init_events_d() -> Seq<TxEvent> {
    command_events(
        0x70,
        seq![0x07u8, 0x07u8, 0x04u8, 0x0Eu8, 0x0Fu8, 0x09u8, 0x07u8, 0x08u8, 0x03u8],
    ) + command_events(Instruction::FrmCtr1.spec_code(), seq![0x34u8]) + command_events(
        0x62,
        seq![
            0x18u8,
            0x0Du8,
            0x71u8,
            0xEDu8,
            0x70u8,
            0x70u8,
            0x18u8,
            0x0Fu8,
            0x71u8,
            0xEFu8,
            0x70u8,
            0x70u8,
        ],
    ) + command_events(
        0x63,
        seq![
            0x18u8,
            0x11u8,
            0x71u8,
            0xF1u8,
            0x70u8,
            0x70u8,
            0x18u8,
            0x13u8,
            0x71u8,
            0xF3u8,
            0x70u8,
            0x70u8,
        ],
    ) + command_events(0x64, seq![0x28u8, 0x29u8, 0xF1u8, 0x01u8, 0xF1u8, 0x00u8, 0x07u8])
        + command_events(
        0x66,
        seq![0x3Cu8, 0x00u8, 0xCDu8, 0x67u8, 0x45u8, 0x45u8, 0x10u8, 0x00u8, 0x00u8, 0x00u8],
    ) + command_events(
        0x67,
        seq![0x00u8, 0x3Cu8, 0x00u8, 0x00u8, 0x00u8, 0x01u8, 0x54u8, 0x10u8, 0x32u8, 0x98u8],
    ) + command_events(0x74, seq![0x10u8, 0x85u8, 0x80u8, 0x00u8, 0x00u8, 0x4Eu8, 0x00u8])
        + command_events(0x98, seq![0x3Eu8, 0x07u8]) + command_events(
        Instruction::CaSet.spec_code(),
        Seq::empty(),
    ) + command_events(Instruction::InvOn.spec_code(), Seq::empty()) + command_events(
        Instruction::SlpOut.spec_code(),
        Seq::empty(),
    ) + command_events(Instruction::DispOn.spec_code(), Seq::empty())
}

/// The whole power-on script: the fixed vendor register sequence that
/// configures the panel, ending with sleep-out and display-on.
pub open spec fn init_events() -> Seq<TxEvent> {
    init_events_a() + init_events_b() + init_events_c() + init_events_d()
}

/// Driver for the display: a transport, the panel geometry, the global
/// address-window calibration offset, and the pending dirty regions.
pub struct GC9A01A<T: PanelTransport> {
    /// Serial transport to the panel.
    transport: T,
    /// Whether the panel is RGB (true) or BGR (false).
    rgb: bool,
    /// Global horizontal address-window offset.
    dx: u16,
    /// Global vertical address-window offset.
    dy: u16,
    /// Panel width in pixels.
    width: u32,
    /// Panel height in pixels.
    height: u32,
    /// Pending dirty regions.
    regions: DirtyRegionSet,
}

impl<T: PanelTransport> GC9A01A<T> {
    /// The history of port actions performed so far.
    pub closed spec fn events(self) -> Seq<TxEvent> {
        self.transport.events()
    }

    /// Whether the panel is RGB (true) or BGR (false).
    pub closed spec fn spec_rgb(self) -> bool {
        self.rgb
    }

    /// The global horizontal address-window offset.
    pub closed spec fn offset_x(self) -> u16 {
        self.dx
    }

    /// The global vertical address-window offset.
    pub closed spec fn offset_y(self) -> u16 {
        self.dy
    }

    /// Panel width in pixels.
    pub closed spec fn spec_width(self) -> u32 {
        self.width
    }

    /// Panel height in pixels.
    pub closed spec fn spec_height(self) -> u32 {
        self.height
    }

    /// The pending dirty regions, in insertion order.
    pub closed spec fn regions(self) -> Seq<Region> {
        self.regions@
    }

    /// Well-formedness: panel dimensions that are non-degenerate and fit the
    /// 16-bit coordinate space, and a well-formed dirty-region set.
    pub closed spec fn wf(self) -> bool {
        &&& 1 <= self.width <= 0xFFFF
        &&& 1 <= self.height <= 0xFFFF
        &&& self.regions.wf()
    }

    /// Everything but the transport history is unchanged between `pre` and
    /// `post`: panel geometry, color order, calibration offset, and the
    /// pending dirty regions.
    pub open spec fn same_config(pre: Self, post: Self) -> bool {
        &&& post.spec_rgb() == pre.spec_rgb()
        &&& post.offset_x() == pre.offset_x()
        &&& post.offset_y() == pre.offset_y()
        &&& post.spec_width() == pre.spec_width()
        &&& post.spec_height() == pre.spec_height()
        &&& post.regions() == pre.regions()
    }

    /// Creates a new driver instance over the given transport.
    pub fn new(transport: T, rgb: bool, width: u32, height: u32) -> (r: Self)
        requires
            1 <= width <= 0xFFFF,
            1 <= height <= 0xFFFF,
        ensures
            r.wf(),
            r.events() == transport.events(),
            r.spec_rgb() == rgb,
            r.offset_x() == 0,
            r.offset_y() == 0,
            r.spec_width() == width,
            r.spec_height() == height,
            r.regions().len() == 0,
    {
        GC9A01A {
            transport,
            rgb,
            dx: 0,
            dy: 0,
            width,
            height,
            regions: DirtyRegionSet::new(),
        }
    }

    /// Read-only access to the transport under the driver.
    pub fn transport(&self) -> (r: &T)
        ensures
            r.events() == self.events(),
    {
        &self.transport
    }

    /// Panel width in pixels.
    pub fn width(&self) -> (r: u32)
        ensures
            r == self.spec_width(),
    {
        self.width
    }

    /// Panel height in pixels.
    pub fn height(&self) -> (r: u32)
        ensures
            r == self.spec_height(),
    {
        self.height
    }

    /// The global address-window calibration offset.
    pub fn offset(&self) -> (r: (u16, u16))
        ensures
            r.0 == self.offset_x(),
            r.1 == self.offset_y(),
    {
        (self.dx, self.dy)
    }

    /// Initializes the display: a hard reset, then the fixed vendor
    /// register script, ending with sleep-out and display-on, followed by a
    /// settling delay.
    pub fn init(&mut self) -> (r: Result<(), ()>)
        requires
            old(self).wf(),
        ensures
            final(self).wf(),
            Self::same_config(*old(self), *final(self)),
            old(self).events().is_prefix_of(final(self).events()),
            r is Ok ==> final(self).events() == old(self).events() + init_events(),
    {
        self.init_part_a()?;
        self.init_part_b()?;
        self.init_part_c()?;
        self.init_part_d()?;
        self.transport.delay_ms(200);
        proof {
            vstd::seq_lib::lemma_concat_associative(
                old(self).events(),
                init_events_a(),
                init_events_b(),
            );
            vstd::seq_lib::lemma_concat_associative(
                old(self).events(),
                init_events_a() + init_events_b(),
                init_events_c(),
            );
            vstd::seq_lib::lemma_concat_associative(
                old(self).events(),
                init_events_a() + init_events_b() + init_events_c(),
                init_events_d(),
            );
        }
        Ok(())
    }

    /// The opening of the power-on script.
    #[verifier::rlimit(100)]
    #[verifier::spinoff_prover]
    fn init_part_a(&mut self) -> (r: Result<(), ()>)
        requires
            old(self).wf(),
        ensures
            final(self).wf(),
            Self::same_config(*old(self), *final(self)),
            old(self).events().is_prefix_of(final(self).events()),
            r is Ok ==> final(self).events() == old(self).events() + init_events_a(),
    {
        let empty: Vec<u8> = Vec::new();
        proof {
            assert(empty@ =~= Seq::<u8>::empty());
        }
        self.hard_reset()?;
        self.write_command(0xEF, empty.as_slice())?;
        self.write_command(0xEB, [0x14u8].as_slice())?;
        self.write_command(0xFE, empty.as_slice())?;
        self.write_command(0xEF, empty.as_slice())?;
        self.write_command(0xEB, [0x14u8].as_slice())?;
        self.write_command(0x84, [0x40u8].as_slice())?;
        self.write_command(0x85, [0xFFu8].as_slice())?;
        self.write_command(0x86, [0xFFu8].as_slice())?;
        self.write_command(0x87, [0xFFu8].as_slice())?;
        self.write_command(0x88, [0x0Au8].as_slice())?;
        self.write_command(0x89, [0x21u8].as_slice())?;
        self.write_command(0x8A, [0x00u8].as_slice())?;
        proof {
            assert(self.events() =~~= old(self).events() + init_events_a());
        }
        Ok(())
    }

    /// The second run of the power-on script.
    fn init_part_b(&mut self) -> (r: Result<(), ()>)
        requires
            old(self).wf(),
        ensures
            final(self).wf(),
            Self::same_config(*old(self), *final(self)),
            old(self).events().is_prefix_of(final(self).events()),
            r is Ok ==> final(self).events() == old(self).events() + init_events_b(),
    {
        self.init_part_b1()?;
        self.init_part_b2()?;
        proof {
            vstd::seq_lib::lemma_concat_associative(
                old(self).events(),
                init_events_b1(),
                init_events_b2(),
            );
        }
        Ok(())
    }

    /// The opening of the second run of the power-on script.
    #[verifier::rlimit(100)]
    #[verifier::spinoff_prover]
    fn init_part_b1(&mut self) -> (r: Result<(), ()>)
        requires
            old(self).wf(),
        ensures
            final(self).wf(),
            Self::same_config(*old(self), *final(self)),
            old(self).events().is_prefix_of(final(self).events()),
            r is Ok ==> final(self).events() == old(self).events() + init_events_b1(),
    {
        self.write_command(0x8B, [0x80u8].as_slice())?;
        self.write_command(0x8C, [0x01u8].as_slice())?;
        self.write_command(0x8D, [0x01u8].as_slice())?;
        self.write_command(0x8E, [0xFFu8].as_slice())?;
        self.write_command(0x8F, [0xFFu8].as_slice())?;
        self.write_command(Instruction::DisSet5.code(), [0x00u8, 0x20u8].as_slice())?;
        proof {
            assert(self.events() =~~= old(self).events() + init_events_b1());
        }
        Ok(())
    }

    /// The close of the second run of the power-on script.
    #[verifier::rlimit(100)]
    #[verifier::spinoff_prover]
    fn init_part_b2(&mut self) -> (r: Result<(), ()>)
        requires
            old(self).wf(),
        ensures
            final(self).wf(),
            Self::same_config(*old(self), *final(self)),
            old(self).events().is_prefix_of(final(self).events()),
            r is Ok ==> final(self).events() == old(self).events() + init_events_b2(),
    {
        self.write_command(Instruction::MadCtl.code(), [0x98u8].as_slice())?;
        self.write_command(Instruction::ColMod.code(), [0x05u8].as_slice())?;
        self.write_command(0x90, [0x08u8, 0x08u8, 0x08u8, 0x08u8].as_slice())?;
        self.write_command(0xBD, [0x06u8].as_slice())?;
        self.write_command(0xBC, [0x00u8].as_slice())?;
        self.write_command(0xFF, [0x60u8, 0x01u8, 0x04u8].as_slice())?;
        proof {
            assert(self.events() =~~= old(self).events() + init_events_b2());
        }
        Ok(())
    }

    /// The third run of the power-on script.
    #[verifier::rlimit(100)]
    #[verifier::spinoff_prover]
    fn init_part_c(&mut self) -> (r: Result<(), ()>)
        requires
            old(self).wf(),
        ensures
            final(self).wf(),
            Self::same_config(*old(self), *final(self)),
            old(self).events().is_prefix_of(final(self).events()),
            r is Ok ==> final(self).events() == old(self).events() + init_events_c(),
    {
        self.write_command(Instruction::PwCtr4.code(), [0x13u8].as_slice())?;
        self.write_command(Instruction::PwCtr5.code(), [0x13u8].as_slice())?;
        self.write_command(0xC9, [0x22u8].as_slice())?;
        self.write_command(0xBE, [0x11u8].as_slice())?;
        self.write_command(Instruction::GmcTrn1.code(), [0x10u8, 0x0Eu8].as_slice())?;
        self.write_command(0xDF, [0x21u8, 0x0Cu8, 0x02u8].as_slice())?;
        self.write_command(
            Instruction::GmcTrp1.code(),
            [0x45u8, 0x09u8, 0x08u8, 0x08u8, 0x26u8, 0x2Au8].as_slice(),
        )?;
        self.write_command(0xF1, [0x43u8, 0x70u8, 0x72u8, 0x36u8, 0x37u8, 0x6Fu8].as_slice())?;
        self.write_command(0xF2, [0x45u8, 0x09u8, 0x08u8, 0x08u8, 0x26u8, 0x2Au8].as_slice())?;
        self.write_command(0xF3, [0x43u8, 0x70u8, 0x72u8, 0x36u8, 0x37u8, 0x6Fu8].as_slice())?;
        self.write_command(0xED, [0x1Bu8, 0x0Bu8].as_slice())?;
        self.write_command(0xAE, [0x77u8].as_slice())?;
        self.write_command(0xCD, [0x63u8].as_slice())?;
        proof {
            assert(self.events() =~~= old(self).events() + init_events_c());
        }
        Ok(())
    }

    /// The last run of the power-on script.
    #[verifier::rlimit(100)]
    #[verifier::spinoff_prover]
    fn init_part_d(&mut self) -> (r: Result<(), ()>)
        requires
            old(self).wf(),
        ensures
            final(self).wf(),
            Self::same_config(*old(self), *final(self)),
            old(self).events().is_prefix_of(final(self).events()),
            r is Ok ==> final(self).events() == old(self).events() + init_events_d(),
    {
        let empty: Vec<u8> = Vec::new();
        proof {
            assert(empty@ =~= Seq::<u8>::empty());
        }
        self.write_command(
            0x70,
            [0x07u8, 0x07u8, 0x04u8, 0x0Eu8, 0x0Fu8, 0x09u8, 0x07u8, 0x08u8, 0x03u8].as_slice(),
        )?;
        self.write_command(Instruction::FrmCtr1.code(), [0x34u8].as_slice())?;
        self.write_command(
            0x62,
            [
                0x18u8,
                0x0Du8,
                0x71u8,
                0xEDu8,
                0x70u8,
                0x70u8,
                0x18u8,
                0x0Fu8,
                0x71u8,
                0xEFu8,
                0x70u8,
                0x70u8,
            ].as_slice(),
        )?;
        self.write_command(
            0x63,
            [
                0x18u8,
                0x11u8,
                0x71u8,
                0xF1u8,
                0x70u8,
                0x70u8,
                0x18u8,
                0x13u8,
                0x71u8,
                0xF3u8,
                0x70u8,
                0x70u8,
            ].as_slice(),
        )?;
        self.write_command(
            0x64,
            [0x28u8, 0x29u8, 0xF1u8, 0x01u8, 0xF1u8, 0x00u8, 0x07u8].as_slice(),
        )?;
        self.write_command(
            0x66,
            [0x3Cu8, 0x00u8, 0xCDu8, 0x67u8, 0x45u8, 0x45u8, 0x10u8, 0x00u8, 0x00u8, 0x00u8].as_slice(),
        )?;
        self.write_command(
            0x67,
            [0x00u8, 0x3Cu8, 0x00u8, 0x00u8, 0x00u8, 0x01u8, 0x54u8, 0x10u8, 0x32u8, 0x98u8].as_slice(),
        )?;
        self.write_command(
            0x74,
            [0x10u8, 0x85u8, 0x80u8, 0x00u8, 0x00u8, 0x4Eu8, 0x00u8].as_slice(),
        )?;
        self.write_command(0x98, [0x3Eu8, 0x07u8].as_slice())?;
        self.write_command(Instruction::CaSet.code(), empty.as_slice())?;
        self.write_command(Instruction::InvOn.code(), empty.as_slice())?;
        self.write_command(Instruction::SlpOut.code(), empty.as_slice())?;
        self.write_command(Instruction::DispOn.code(), empty.as_slice())?;
        proof {
            assert(self.events() =~~= old(self).events() + init_events_d());
        }
        Ok(())
    }

    /// Sends one command byte, with its parameters as a data burst.
    fn write_command(&mut self, command: u8, params: &[u8]) -> (r: Result<(), ()>)
        requires
            old(self).wf(),
        ensures
            final(self).wf(),
            Self::same_config(*old(self), *final(self)),
            old(self).events().is_prefix_of(final(self).events()),
            r is Ok ==> final(self).events() == old(self).events() + command_events(
                command,
                params@,
            ),
    {
        self.transport.set_cs(true)?;
        self.transport.set_dc(false)?;
        self.transport.set_cs(false)?;
        let mut cmd: Vec<u8> = Vec::new();
        cmd.push(command);
        self.transport.spi_write(cmd.as_slice())?;
        if params.len() > 0 {
            self.start_data()?;
            self.write_data(params)?;
        }
        self.transport.set_cs(true)?;
        proof {
            assert(cmd@ =~= seq![command]);
            assert(self.events() =~= old(self).events() + command_events(command, params@));
        }
        Ok(())
    }

    /// Raises the data/command line, announcing data bytes.
    fn start_data(&mut self) -> (r: Result<(), ()>)
        requires
            old(self).wf(),
        ensures
            final(self).wf(),
            Self::same_config(*old(self), *final(self)),
            old(self).events().is_prefix_of(final(self).events()),
            r is Ok ==> final(self).events() == old(self).events() + seq![TxEvent::Dc(true)],
    {
        let r = self.transport.set_dc(true);
        proof {
            if r is Ok {
                assert(self.events() =~= old(self).events() + seq![TxEvent::Dc(true)]);
            }
        }
        r
    }

    /// Sends one data burst.
    fn write_data(&mut self, data: &[u8]) -> (r: Result<(), ()>)
        requires
            old(self).wf(),
        ensures
            final(self).wf(),
            Self::same_config(*old(self), *final(self)),
            old(self).events().is_prefix_of(final(self).events()),
            r is Ok ==> final(self).events() == old(self).events() + data_events(data@),
    {
        self.transport.set_cs(true)?;
        self.transport.set_dc(true)?;
        self.transport.set_cs(false)?;
        self.transport.spi_write(data)?;
        self.transport.set_cs(true)?;
        proof {
            assert(self.events() =~= old(self).events() + data_events(data@));
        }
        Ok(())
    }

    /// Sends one 16-bit word, big-endian, as a data burst.
    fn write_word(&mut self, value: u16) -> (r: Result<(), ()>)
        requires
            old(self).wf(),
        ensures
            final(self).wf(),
            Self::same_config(*old(self), *final(self)),
            old(self).events().is_prefix_of(final(self).events()),
            r is Ok ==> final(self).events() == old(self).events() + word_events(value),
    {
        let mut bytes: Vec<u8> = Vec::new();
        bytes.push((value >> 8) as u8);
        bytes.push((value & 0xff) as u8);
        let r = self.write_data(bytes.as_slice());
        proof {
            assert(bytes@ =~= be_word(value));
        }
        r
    }

    /// Sets the orientation of the display through a memory-access-control
    /// command.
    pub fn set_orientation(&mut self, orientation: &Orientation) -> (r: Result<(), ()>)
        requires
            old(self).wf(),
        ensures
            final(self).wf(),
            Self::same_config(*old(self), *final(self)),
            old(self).events().is_prefix_of(final(self).events()),
            r is Ok ==> final(self).events() == old(self).events() + command_events(
                Instruction::MadCtl.spec_code(),
                seq![orientation_byte(*orientation, old(self).spec_rgb())],
            ),
    {
        let mut params: Vec<u8> = Vec::new();
        if self.rgb {
            params.push(orientation.code());
        } else {
            params.push(orientation.code() | 0x08);
        }
        let r = self.write_command(Instruction::MadCtl.code(), params.as_slice());
        proof {
            assert(params@ =~= seq![orientation_byte(*orientation, old(self).spec_rgb())]);
        }
        r
    }

    /// Sets the global offset applied to every subsequent address window.
    pub fn set_offset(&mut self, dx: u16, dy: u16)
        requires
            old(self).wf(),
        ensures
            final(self).wf(),
            final(self).events() == old(self).events(),
            final(self).offset_x() == dx,
            final(self).offset_y() == dy,
            final(self).spec_rgb() == old(self).spec_rgb(),
            final(self).spec_width() == old(self).spec_width(),
            final(self).spec_height() == old(self).spec_height(),
            final(self).regions() == old(self).regions(),
    {
        self.dx = dx;
        self.dy = dy;
    }

    /// Performs a hard reset by toggling the reset line with settling
    /// delays, leaving the panel in a known state.
    pub fn hard_reset(&mut self) -> (r: Result<(), ()>)
        requires
            old(self).wf(),
        ensures
            final(self).wf(),
            Self::same_config(*old(self), *final(self)),
            old(self).events().is_prefix_of(final(self).events()),
            r is Ok ==> final(self).events() == old(self).events() + seq![
                TxEvent::Rst(true),
                TxEvent::Rst(false),
                TxEvent::Rst(true),
            ],
    {
        self.transport.set_rst(true)?;
        self.transport.delay_ms(10);
        self.transport.set_rst(false)?;
        self.transport.delay_ms(10);
        self.transport.set_rst(true)?;
        self.transport.delay_ms(10);
        proof {
            assert(self.events() =~= old(self).events() + seq![
                TxEvent::Rst(true),
                TxEvent::Rst(false),
                TxEvent::Rst(true),
            ]);
        }
        Ok(())
    }

    /// Sets the address window to the inclusive rectangle
    /// `(start_x, start_y) ..= (end_x, end_y)`, each coordinate offset by
    /// the global calibration pair. Every pixel write lands inside the
    /// current window.
    pub fn set_address_window(&mut self, start_x: u16, start_y: u16, end_x: u16, end_y: u16) -> (r:
        Result<(), ()>)
        requires
            old(self).wf(),
            start_x + old(self).offset_x() <= 0xFFFF,
            end_x + old(self).offset_x() <= 0xFFFF,
            start_y + old(self).offset_y() <= 0xFFFF,
            end_y + old(self).offset_y() <= 0xFFFF,
        ensures
            final(self).wf(),
            Self::same_config(*old(self), *final(self)),
            old(self).events().is_prefix_of(final(self).events()),
            r is Ok ==> final(self).events() == old(self).events() + window_events(
                start_x,
                start_y,
                end_x,
                end_y,
                old(self).offset_x(),
                old(self).offset_y(),
            ),
    {
        let empty: Vec<u8> = Vec::new();
        self.write_command(Instruction::CaSet.code(), empty.as_slice())?;
        self.start_data()?;
        self.write_word(start_x + self.dx)?;
        self.write_word(end_x + self.dx)?;
        self.write_command(Instruction::RaSet.code(), empty.as_slice())?;
        self.start_data()?;
        self.write_word(start_y + self.dy)?;
        let r = self.write_word(end_y + self.dy);
        proof {
            assert(empty@ =~= Seq::<u8>::empty());
            if r is Ok {
                assert(self.events() =~= old(self).events() + window_events(
                    start_x,
                    start_y,
                    end_x,
                    end_y,
                    old(self).offset_x(),
                    old(self).offset_y(),
                ));
            }
        }
        r
    }

    /// Fills the entire screen with one color, streaming the color run in
    /// 512-pixel bursts.
    pub fn clear_screen(&mut self, color: u16) -> (r: Result<(), ()>)
        requires
            old(self).wf(),
            old(self).spec_width() - 1 + old(self).offset_x() <= 0xFFFF,
            old(self).spec_height() - 1 + old(self).offset_y() <= 0xFFFF,
        ensures
            final(self).wf(),
            Self::same_config(*old(self), *final(self)),
            old(self).events().is_prefix_of(final(self).events()),
            r is Ok ==> final(self).events() == old(self).events() + clear_events(
                color,
                old(self).spec_width(),
                old(self).spec_height(),
                old(self).offset_x(),
                old(self).offset_y(),
            ),
    {
        let color_high: u8 = (color >> 8) as u8;
        let color_low: u8 = (color & 0xff) as u8;
        self.set_address_window(0, 0, (self.width - 1) as u16, (self.height - 1) as u16)?;
        let empty: Vec<u8> = Vec::new();
        self.write_command(Instruction::RamWr.code(), empty.as_slice())?;
        self.start_data()?;
        let ghost after_head: Seq<TxEvent> = self.events();
        proof {
            assert(empty@ =~= Seq::<u8>::empty());
            assert(after_head =~= old(self).events() + window_events(
                0,
                0,
                (old(self).spec_width() - 1) as u16,
                (old(self).spec_height() - 1) as u16,
                old(self).offset_x(),
                old(self).offset_y(),
            ) + command_events(Instruction::RamWr.spec_code(), Seq::empty()) + seq![
                TxEvent::Dc(true),
            ]);
        }
        let mut chunk: Vec<u8> = Vec::new();
        let mut i: usize = 0;
        while i < 512
            invariant
                i <= 512,
                chunk@.len() == 2 * i,
                color_high == (color >> 8) as u8,
                color_low == (color & 0xff) as u8,
                forall|k: int| 0 <= k < 2 * i ==> chunk@[k] == fill_chunk_bytes(color)[k],
            decreases 512 - i,
        {
            chunk.push(color_high);
            chunk.push(color_low);
            i = i + 1;
        }
        proof {
            assert(chunk@ =~= fill_chunk_bytes(color));
            assert((self.width as int) * (self.height as int) <= 0xFFFF * 0xFFFF)
                by (nonlinear_arith)
                requires
                    1 <= self.width as int <= 0xFFFF,
                    1 <= self.height as int <= 0xFFFF,
            ;
        }
        let total_pixels: usize = (self.width as usize) * (self.height as usize);
        let full_chunks: usize = total_pixels / 512;
        let remaining_pixels: usize = total_pixels % 512;
        let mut j: usize = 0;
        while j < full_chunks
            invariant
                old(self).wf(),
                self.wf(),
                Self::same_config(*old(self), *self),
                old(self).events().is_prefix_of(self.events()),
                j <= full_chunks,
                chunk@ == fill_chunk_bytes(color),
                self.events() == after_head + repeat_data_events(
                    fill_chunk_bytes(color),
                    j as nat,
                ),
            decreases full_chunks - j,
        {
            self.write_data(chunk.as_slice())?;
            j = j + 1;
        }
        if remaining_pixels > 0 {
            self.write_data(vstd::slice::slice_subrange(chunk.as_slice(), 0, remaining_pixels * 2))?;
        }
        proof {
            assert(total_pixels as int == (old(self).spec_width() as int) * (old(
                self,
            ).spec_height() as int));
            assert(fill_chunk_bytes(color).subrange(0, 2 * (remaining_pixels as int))
                =~= fill_chunk_bytes(color).take(2 * ((total_pixels as int) % 512)));
            assert(self.events() =~= old(self).events() + clear_events(
                color,
                old(self).spec_width(),
                old(self).spec_height(),
                old(self).offset_x(),
                old(self).offset_y(),
            ));
        }
        Ok(())
    }

    /// Sets the color of the single pixel at `(x, y)`.
    pub fn write_pixel(&mut self, x: u16, y: u16, color: u16) -> (r: Result<(), ()>)
        requires
            old(self).wf(),
            x + old(self).offset_x() <= 0xFFFF,
            y + old(self).offset_y() <= 0xFFFF,
        ensures
            final(self).wf(),
            Self::same_config(*old(self), *final(self)),
            old(self).events().is_prefix_of(final(self).events()),
            r is Ok ==> final(self).events() == old(self).events() + pixel_events(
                x,
                y,
                color,
                old(self).offset_x(),
                old(self).offset_y(),
            ),
    {
        self.set_address_window(x, y, x, y)?;
        let empty: Vec<u8> = Vec::new();
        self.write_command(Instruction::RamWr.code(), empty.as_slice())?;
        self.start_data()?;
        let r = self.write_word(color);
        proof {
            assert(empty@ =~= Seq::<u8>::empty());
            if r is Ok {
                assert(self.events() =~= old(self).events() + pixel_events(
                    x,
                    y,
                    color,
                    old(self).offset_x(),
                    old(self).offset_y(),
                ));
            }
        }
        r
    }

    /// Draws a full-panel image from raw pixel bytes, streamed in chunks.
    pub fn draw_image(&mut self, image_data: &[u8]) -> (r: Result<(), ()>)
        requires
            old(self).wf(),
            old(self).spec_width() - 1 + old(self).offset_x() <= 0xFFFF,
            old(self).spec_height() - 1 + old(self).offset_y() <= 0xFFFF,
        ensures
            final(self).wf(),
            Self::same_config(*old(self), *final(self)),
            old(self).events().is_prefix_of(final(self).events()),
            r is Ok ==> final(self).events() == old(self).events() + draw_image_events(
                image_data@,
                old(self).spec_width(),
                old(self).spec_height(),
                old(self).offset_x(),
                old(self).offset_y(),
            ),
    {
        self.set_address_window(0, 0, (self.width - 1) as u16, (self.height - 1) as u16)?;
        let empty: Vec<u8> = Vec::new();
        self.write_command(Instruction::RamWr.code(), empty.as_slice())?;
        self.start_data()?;
        let ghost after_head: Seq<TxEvent> = self.events();
        proof {
            assert(empty@ =~= Seq::<u8>::empty());
            assert(after_head =~= old(self).events() + window_events(
                0,
                0,
                (old(self).spec_width() - 1) as u16,
                (old(self).spec_height() - 1) as u16,
                old(self).offset_x(),
                old(self).offset_y(),
            ) + command_events(Instruction::RamWr.spec_code(), Seq::empty()) + seq![
                TxEvent::Dc(true),
            ]);
            assert(image_data@.skip(0) =~= image_data@);
        }
        let n: usize = image_data.len();
        let mut i: usize = 0;
        while i < n
            invariant
                old(self).wf(),
                self.wf(),
                Self::same_config(*old(self), *self),
                old(self).events().is_prefix_of(self.events()),
                i <= n,
                n == image_data@.len(),
                after_head + chunked_data_events(image_data@, STREAM_CHUNK_SIZE as nat)
                    == self.events() + chunked_data_events(
                    image_data@.skip(i as int),
                    STREAM_CHUNK_SIZE as nat,
                ),
            decreases n - i,
        {
            let end: usize = if n - i >= STREAM_CHUNK_SIZE {
                i + STREAM_CHUNK_SIZE
            } else {
                n
            };
            self.write_data(vstd::slice::slice_subrange(image_data, i, end))?;
            proof {
                let s = image_data@;
                let rem = s.skip(i as int);
                if n - i >= STREAM_CHUNK_SIZE {
                    assert(rem.take(STREAM_CHUNK_SIZE as int) =~= s.subrange(i as int, end as int));
                    assert(rem.skip(STREAM_CHUNK_SIZE as int) =~= s.skip(end as int));
                } else {
                    assert(rem =~= s.subrange(i as int, end as int));
                    assert(s.skip(end as int) =~= Seq::<u8>::empty());
                }
            }
            i = end;
        }
        proof {
            assert(image_data@.skip(n as int) =~= Seq::<u8>::empty());
            assert(self.events() + chunked_data_events(Seq::<u8>::empty(), STREAM_CHUNK_SIZE as nat)
                =~= self.events());
            assert(self.events() =~= old(self).events() + draw_image_events(
                image_data@,
                old(self).spec_width(),
                old(self).spec_height(),
                old(self).offset_x(),
                old(self).offset_y(),
            ));
        }
        Ok(())
    }

    /// Pushes a full frame: the address window spans the entire panel,
    /// offset by the calibration pair, and the provided buffer must hold
    /// pixel data for the whole display area. Used for the initial scene
    /// paint; the steady-state loop pushes dirty regions instead.
    pub fn show(&mut self, buffer: &[u8]) -> (r: Result<(), ()>)
        requires
            old(self).wf(),
            old(self).spec_width() - 1 + old(self).offset_x() <= 0xFFFF,
            old(self).spec_height() - 1 + old(self).offset_y() <= 0xFFFF,
        ensures
            final(self).wf(),
            Self::same_config(*old(self), *final(self)),
            old(self).events().is_prefix_of(final(self).events()),
            r is Ok ==> final(self).events() == old(self).events() + show_events(
                buffer@,
                old(self).spec_width(),
                old(self).spec_height(),
                old(self).offset_x(),
                old(self).offset_y(),
            ),
    {
        self.set_address_window(0, 0, (self.width - 1) as u16, (self.height - 1) as u16)?;
        let empty: Vec<u8> = Vec::new();
        self.write_command(Instruction::RamWr.code(), empty.as_slice())?;
        let r = self.write_data(buffer);
        proof {
            assert(empty@ =~= Seq::<u8>::empty());
            if r is Ok {
                assert(self.events() =~= old(self).events() + show_events(
                    buffer@,
                    old(self).spec_width(),
                    old(self).spec_height(),
                    old(self).offset_x(),
                    old(self).offset_y(),
                ));
            }
        }
        r
    }

    /// Updates one rectangular region of the panel from a full-frame
    /// buffer: sets the address window to exactly the region, then streams
    /// the region's bytes row by row, each row in chunks.
    pub fn show_region(
        &mut self,
        buffer: &[u8],
        top_left_x: u16,
        top_left_y: u16,
        width: u32,
        height: u32,
    ) -> (r: Result<(), ()>)
        requires
            old(self).wf(),
            buffer@.len() == 2 * old(self).spec_width() * old(self).spec_height(),
            region_fits(
                Region { x: top_left_x, y: top_left_y, width, height },
                old(self).spec_width(),
                old(self).spec_height(),
                old(self).offset_x(),
                old(self).offset_y(),
            ),
        ensures
            final(self).wf(),
            Self::same_config(*old(self), *final(self)),
            old(self).events().is_prefix_of(final(self).events()),
            r is Ok ==> final(self).events() == old(self).events() + region_events(
                buffer@,
                old(self).spec_width() as int,
                top_left_x,
                top_left_y,
                width,
                height,
                old(self).offset_x(),
                old(self).offset_y(),
            ),
    {
        let start_x = top_left_x;
        let start_y = top_left_y;
        let end_x: u16 = ((top_left_x as u32) + width - 1) as u16;
        let end_y: u16 = ((top_left_y as u32) + height - 1) as u16;
        self.set_address_window(start_x, start_y, end_x, end_y)?;
        let empty: Vec<u8> = Vec::new();
        self.write_command(Instruction::RamWr.code(), empty.as_slice())?;
        self.start_data()?;
        let ghost after_head: Seq<TxEvent> = self.events();
        proof {
            assert(empty@ =~= Seq::<u8>::empty());
            assert(after_head =~= old(self).events() + window_events(
                top_left_x,
                top_left_y,
                (top_left_x + width - 1) as u16,
                (top_left_y + height - 1) as u16,
                old(self).offset_x(),
                old(self).offset_y(),
            ) + command_events(Instruction::RamWr.spec_code(), Seq::empty()) + seq![
                TxEvent::Dc(true),
            ]);
        }
        let buffer_width: usize = self.width as usize;
        let n: usize = buffer.len();
        let mut row: u32 = 0;
        while row < height
            invariant
                old(self).wf(),
                self.wf(),
                Self::same_config(*old(self), *self),
                old(self).events().is_prefix_of(self.events()),
                row <= height,
                start_x == top_left_x,
                start_y == top_left_y,
                buffer_width == self.width as usize,
                n == buffer@.len(),
                n == 2 * self.width * self.height,
                1 <= width,
                top_left_x + width <= self.width,
                top_left_y + height <= self.height,
                self.events() == after_head + rows_events(
                    buffer@,
                    self.width as int,
                    top_left_x as int,
                    top_left_y as int,
                    width as int,
                    row as nat,
                ),
            decreases height - row,
        {
            proof {
                assert(((top_left_y as int + row) * (buffer_width as int) + top_left_x) * 2 + 2 * (
                width as int) <= n as int && (top_left_y as int + row) * (buffer_width as int)
                    >= 0) by (nonlinear_arith)
                    requires
                        0 <= top_left_x as int,
                        0 <= top_left_y as int,
                        0 <= row < height as int,
                        top_left_x as int + width as int <= buffer_width as int,
                        top_left_y as int + height as int <= self.height as int,
                        n as int == 2 * (buffer_width as int) * (self.height as int),
                ;
            }
            let yy: usize = start_y as usize + row as usize;
            proof {
                assert(yy as int == top_left_y as int + row as int);
                assert((yy as int) * (buffer_width as int) == (top_left_y as int + row) * (
                buffer_width as int));
            }
            let start_index: usize = (yy * buffer_width + start_x as usize) * 2;
            let end_index: usize = start_index + (width as usize) * 2;
            let ghost row_start_events: Seq<TxEvent> = self.events();
            let ghost rowb: Seq<u8> = region_row_bytes(
                buffer@,
                self.width as int,
                top_left_x as int,
                top_left_y as int + row,
                width as int,
            );
            proof {
                assert(rowb =~= buffer@.subrange(start_index as int, end_index as int));
                assert(buffer@.subrange(start_index as int, end_index as int).skip(0)
                    =~= buffer@.subrange(start_index as int, end_index as int));
            }
            let mut i: usize = start_index;
            while i < end_index
                invariant
                    old(self).wf(),
                    self.wf(),
                    Self::same_config(*old(self), *self),
                    old(self).events().is_prefix_of(self.events()),
                    start_index <= i <= end_index,
                    end_index <= n,
                    n == buffer@.len(),
                    rowb == buffer@.subrange(start_index as int, end_index as int),
                    row_start_events + chunked_data_events(rowb, STREAM_CHUNK_SIZE as nat)
                        == self.events() + chunked_data_events(
                        buffer@.subrange(i as int, end_index as int),
                        STREAM_CHUNK_SIZE as nat,
                    ),
                decreases end_index - i,
            {
                let end: usize = if end_index - i >= STREAM_CHUNK_SIZE {
                    i + STREAM_CHUNK_SIZE
                } else {
                    end_index
                };
                self.write_data(vstd::slice::slice_subrange(buffer, i, end))?;
                proof {
                    let rem = buffer@.subrange(i as int, end_index as int);
                    if end_index - i >= STREAM_CHUNK_SIZE {
                        assert(rem.take(STREAM_CHUNK_SIZE as int) =~= buffer@.subrange(
                            i as int,
                            end as int,
                        ));
                        assert(rem.skip(STREAM_CHUNK_SIZE as int) =~= buffer@.subrange(
                            end as int,
                            end_index as int,
                        ));
                    } else {
                        assert(rem =~= buffer@.subrange(i as int, end as int));
                        assert(buffer@.subrange(end as int, end_index as int)
                            =~= Seq::<u8>::empty());
                    }
                }
                i = end;
            }
            proof {
                assert(buffer@.subrange(end_index as int, end_index as int) =~= Seq::<u8>::empty());
                assert(self.events() =~= row_start_events + chunked_data_events(
                    rowb,
                    STREAM_CHUNK_SIZE as nat,
                ));
            }
            row = row + 1;
        }
        proof {
            assert(self.events() =~= old(self).events() + region_events(
                buffer@,
                old(self).spec_width() as int,
                top_left_x,
                top_left_y,
                width,
                height,
                old(self).offset_x(),
                old(self).offset_y(),
            ));
        }
        Ok(())
    }

    /// Registers a dirty region for the next transfer. Returns `Err`
    /// exactly when all slots are occupied, leaving the set unchanged:
    /// capacity exhaustion is reported, never silently dropped.
    pub fn store_region(&mut self, region: Region) -> (r: Result<(), ()>)
        requires
            old(self).wf(),
        ensures
            final(self).wf(),
            final(self).events() == old(self).events(),
            final(self).spec_rgb() == old(self).spec_rgb(),
            final(self).offset_x() == old(self).offset_x(),
            final(self).offset_y() == old(self).offset_y(),
            final(self).spec_width() == old(self).spec_width(),
            final(self).spec_height() == old(self).spec_height(),
            r is Ok <==> old(self).regions().len() < DIRTY_REGION_CAPACITY,
            old(self).regions().len() < DIRTY_REGION_CAPACITY ==> final(self).regions() == old(
                self,
            ).regions().push(region),
            old(self).regions().len() >= DIRTY_REGION_CAPACITY ==> final(self).regions() == old(
                self,
            ).regions(),
    {
        self.regions.insert(region)
    }

    /// Registers a dirty region given by its coordinates.
    pub fn store_region_from_params(&mut self, x: u16, y: u16, width: u32, height: u32) -> (r:
        Result<(), ()>)
        requires
            old(self).wf(),
        ensures
            final(self).wf(),
            final(self).events() == old(self).events(),
            final(self).spec_rgb() == old(self).spec_rgb(),
            final(self).offset_x() == old(self).offset_x(),
            final(self).offset_y() == old(self).offset_y(),
            final(self).spec_width() == old(self).spec_width(),
            final(self).spec_height() == old(self).spec_height(),
            r is Ok <==> old(self).regions().len() < DIRTY_REGION_CAPACITY,
            old(self).regions().len() < DIRTY_REGION_CAPACITY ==> final(self).regions() == old(
                self,
            ).regions().push(Region { x, y, width, height }),
            old(self).regions().len() >= DIRTY_REGION_CAPACITY ==> final(self).regions() == old(
                self,
            ).regions(),
    {
        let region = Region { x, y, width, height };
        self.store_region(region)
    }

    /// The dirty-region slot array: the first `regions().len()` slots hold
    /// the pending regions in insertion order, the rest are free.
    pub fn get_regions(&self) -> (r: &[Option<Region>])
        requires
            self.wf(),
        ensures
            r@.len() == DIRTY_REGION_CAPACITY,
            forall|i: int| 0 <= i < self.regions().len() ==> r@[i] == Some(self.regions()[i]),
            forall|i: int| self.regions().len() <= i < DIRTY_REGION_CAPACITY ==> r@[i] is None,
    {
        self.regions.slots()
    }

    /// Empties the dirty-region set, making every slot free again.
    pub fn clear_regions(&mut self)
        requires
            old(self).wf(),
        ensures
            final(self).wf(),
            final(self).events() == old(self).events(),
            final(self).spec_rgb() == old(self).spec_rgb(),
            final(self).offset_x() == old(self).offset_x(),
            final(self).offset_y() == old(self).offset_y(),
            final(self).spec_width() == old(self).spec_width(),
            final(self).spec_height() == old(self).spec_height(),
            final(self).regions().len() == 0,
    {
        self.regions.clear()
    }

    /// Pushes every pending dirty region to the panel, in insertion order.
    /// A failure on any region aborts the remaining transfers; regions
    /// already sent remain committed on the panel. An empty set succeeds
    /// without touching the port.
    pub fn show_regions(&mut self, buffer: &[u8]) -> (r: Result<(), ()>)
        requires
            old(self).wf(),
            buffer@.len() == 2 * old(self).spec_width() * old(self).spec_height(),
            forall|i: int|
                0 <= i < old(self).regions().len() ==> region_fits(
                    #[trigger] old(self).regions()[i],
                    old(self).spec_width(),
                    old(self).spec_height(),
                    old(self).offset_x(),
                    old(self).offset_y(),
                ),
        ensures
            final(self).wf(),
            Self::same_config(*old(self), *final(self)),
            old(self).events().is_prefix_of(final(self).events()),
            r is Ok ==> final(self).events() == old(self).events() + regions_events(
                buffer@,
                old(self).spec_width() as int,
                old(self).regions(),
                old(self).offset_x(),
                old(self).offset_y(),
            ),
            old(self).regions().len() == 0 ==> r is Ok,
    {
        let count: usize = self.regions.len();
        proof {
            assert(self.regions().take(0) =~= Seq::<Region>::empty());
        }
        let mut i: usize = 0;
        while i < count
            invariant
                old(self).wf(),
                self.wf(),
                Self::same_config(*old(self), *self),
                old(self).events().is_prefix_of(self.events()),
                i <= count,
                count == self.regions().len(),
                count <= DIRTY_REGION_CAPACITY,
                buffer@.len() == 2 * self.spec_width() * self.spec_height(),
                forall|j: int|
                    0 <= j < self.regions().len() ==> region_fits(
                        #[trigger] self.regions()[j],
                        self.spec_width(),
                        self.spec_height(),
                        self.offset_x(),
                        self.offset_y(),
                    ),
                self.events() == old(self).events() + regions_events(
                    buffer@,
                    self.spec_width() as int,
                    self.regions().take(i as int),
                    self.offset_x(),
                    self.offset_y(),
                ),
            decreases count - i,
        {
            let region: Region = self.regions.get(i).unwrap();
            self.show_region(buffer, region.x, region.y, region.width, region.height)?;
            proof {
                assert(self.regions().take(i + 1).drop_last() =~= self.regions().take(i as int));
                assert(self.regions().take(i + 1).last() == self.regions()[i as int]);
            }
            i = i + 1;
        }
        proof {
            assert(self.regions().take(count as int) =~= self.regions());
        }
        Ok(())
    }

    /// Pushes every pending dirty region, then empties the set so the next
    /// frame starts from a clean slate: with nothing pending it succeeds
    /// without touching the port. On failure the set is left intact.
    pub fn show_regions_and_clear(&mut self, buffer: &[u8]) -> (r: Result<(), ()>)
        requires
            old(self).wf(),
            buffer@.len() == 2 * old(self).spec_width() * old(self).spec_height(),
            forall|i: int|
                0 <= i < old(self).regions().len() ==> region_fits(
                    #[trigger] old(self).regions()[i],
                    old(self).spec_width(),
                    old(self).spec_height(),
                    old(self).offset_x(),
                    old(self).offset_y(),
                ),
        ensures
            final(self).wf(),
            final(self).spec_rgb() == old(self).spec_rgb(),
            final(self).offset_x() == old(self).offset_x(),
            final(self).offset_y() == old(self).offset_y(),
            final(self).spec_width() == old(self).spec_width(),
            final(self).spec_height() == old(self).spec_height(),
            old(self).events().is_prefix_of(final(self).events()),
            r is Ok ==> final(self).events() == old(self).events() + regions_events(
                buffer@,
                old(self).spec_width() as int,
                old(self).regions(),
                old(self).offset_x(),
                old(self).offset_y(),
            ),
            r is Ok ==> final(self).regions().len() == 0,
            r is Err ==> final(self).regions() == old(self).regions(),
            old(self).regions().len() == 0 ==> r is Ok,
    {
        if let Err(e) = self.show_regions(buffer) {
            return Err(e);
        }
        self.clear_regions();
        Ok(())
    }
}

} // verus!
