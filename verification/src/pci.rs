//! PCI configuration-space data model: the packed configuration address,
//! the device header layout, and the class-code table. The port reads and
//! the bus scan that feed this model are hardware access outside the
//! library.

pub mod class_name;
pub mod subclass;

use vstd::prelude::*;

verus! {

/// The port on which a configuration address is written.
pub const CONFIG_PORT: u16 = 0xCF8;

/// The port from which configuration data is read.
pub const DATA_PORT: u16 = 0xCFC;

/// Number of PCI buses probed by a full scan.
pub const MAX_BUSES: u8 = 255;

/// Number of devices per bus.
pub const MAX_DEVICES: u8 = 32;

/// Number of functions per device.
pub const MAX_FUNCTIONS: u8 = 8;

/// The layout kind a device header announces.
#[derive(Debug, Clone, Copy, PartialEq, Eq, Structural)]
pub enum HeaderType {
    Normal,
    Bridge,
    CardBus,
    MultiFunc,
}

impl HeaderType {
    /// The code of the header type in the configuration space.
    pub fn code(self) -> (r: u8)
        ensures
            r == (match self {
                HeaderType::Normal => 0u8,
                HeaderType::Bridge => 1u8,
                HeaderType::CardBus => 2u8,
                HeaderType::MultiFunc => 0x80u8,
            }),
    {
        match self {
            HeaderType::Normal => 0,
            HeaderType::Bridge => 1,
            HeaderType::CardBus => 2,
            HeaderType::MultiFunc => 0x80,
        }
    }
}

/// A PCI device class, as named by the pre-2.0 class-code table.
#[derive(Debug, Clone, Copy, PartialEq, Eq, Structural)]
pub enum ClassName {
    BeforePCI20,
    DiskController,
    NetworkInterface,
    GraphicsAdapter,
    MultimediaController,
    MemoryController,
    BridgeDevice,
    CommunicationController,
    SystemDevice,
    InputDevice,
    DockingStation,
    CPU,
    SerialBus,
    WirelessController,
    IntelligentIOController,
    SatelliteController,
    EncryptionController,
    SignalProcessingController,
    ProprietaryDevice,
    Count,
}

/// Which class a class code names: the codes 0 through 17 in table order,
/// 0xFF for a proprietary device, and nothing otherwise.
pub open spec fn spec_class_of(class_code: u8) -> Option<ClassName> {
    if class_code == 0 {
        Some(ClassName::BeforePCI20)
    } else if class_code == 1 {
        Some(ClassName::DiskController)
    } else if class_code == 2 {
        Some(ClassName::NetworkInterface)
    } else if class_code == 3 {
        Some(ClassName::GraphicsAdapter)
    } else if class_code == 4 {
        Some(ClassName::MultimediaController)
    } else if class_code == 5 {
        Some(ClassName::MemoryController)
    } else if class_code == 6 {
        Some(ClassName::BridgeDevice)
    } else if class_code == 7 {
        Some(ClassName::CommunicationController)
    } else if class_code == 8 {
        Some(ClassName::SystemDevice)
    } else if class_code == 9 {
        Some(ClassName::InputDevice)
    } else if class_code == 10 {
        Some(ClassName::DockingStation)
    } else if class_code == 11 {
        Some(ClassName::CPU)
    } else if class_code == 12 {
        Some(ClassName::SerialBus)
    } else if class_code == 13 {
        Some(ClassName::WirelessController)
    } else if class_code == 14 {
        Some(ClassName::IntelligentIOController)
    } else if class_code == 15 {
        Some(ClassName::SatelliteController)
    } else if class_code == 16 {
        Some(ClassName::EncryptionController)
    } else if class_code == 17 {
        Some(ClassName::SignalProcessingController)
    } else if class_code == 0xFF {
        Some(ClassName::ProprietaryDevice)
    } else {
        None
    }
}

impl ClassName {
    /// The class a class code names, if the table knows the code.
    pub fn new(class_code: u8) -> (r: Option<ClassName>)
        ensures
            r == spec_class_of(class_code),
    {
        if class_code > 17 && class_code != 0xFF {
            return None;
        }
        match class_code {
            0 => Some(ClassName::BeforePCI20),
            1 => Some(ClassName::DiskController),
            2 => Some(ClassName::NetworkInterface),
            3 => Some(ClassName::GraphicsAdapter),
            4 => Some(ClassName::MultimediaController),
            5 => Some(ClassName::MemoryController),
            6 => Some(ClassName::BridgeDevice),
            7 => Some(ClassName::CommunicationController),
            8 => Some(ClassName::SystemDevice),
            9 => Some(ClassName::InputDevice),
            10 => Some(ClassName::DockingStation),
            11 => Some(ClassName::CPU),
            12 => Some(ClassName::SerialBus),
            13 => Some(ClassName::WirelessController),
            14 => Some(ClassName::IntelligentIOController),
            15 => Some(ClassName::SatelliteController),
            16 => Some(ClassName::EncryptionController),
            17 => Some(ClassName::SignalProcessingController),
            _ => Some(ClassName::ProprietaryDevice),
        }
    }

    /// The class's display name.
    pub open spec fn spec_name(self) -> Seq<char> {
        match self {
            ClassName::BeforePCI20 => "Before PCI 2.0"@,
            ClassName::DiskController => "Disk controller"@,
            ClassName::NetworkInterface => "Network interface"@,
            ClassName::GraphicsAdapter => "Graphics adapter"@,
            ClassName::MultimediaController => "Multimedia controller"@,
            ClassName::MemoryController => "Memory controller"@,
            ClassName::BridgeDevice => "Bridge device"@,
            ClassName::CommunicationController => "Communication controller"@,
            ClassName::SystemDevice => "System device"@,
            ClassName::InputDevice => "Input device"@,
            ClassName::DockingStation => "Docking station"@,
            ClassName::CPU => "CPU"@,
            ClassName::SerialBus => "Serial bus"@,
            ClassName::WirelessController => "Wireless controller"@,
            ClassName::IntelligentIOController => "Intelligent I/O controller"@,
            ClassName::SatelliteController => "Satellite controller"@,
            ClassName::EncryptionController => "Encryption controller"@,
            ClassName::SignalProcessingController => "Signal processing controller"@,
            ClassName::ProprietaryDevice => "Proprietary device"@,
            ClassName::Count => ""@,
        }
    }

    /// The class's display name.
    pub fn to_string(&self) -> (r: &'static str)
        ensures
            r@ == self.spec_name(),
    {
        match self {
            ClassName::BeforePCI20 => "Before PCI 2.0",
            ClassName::DiskController => "Disk controller",
            ClassName::NetworkInterface => "Network interface",
            ClassName::GraphicsAdapter => "Graphics adapter",
            ClassName::MultimediaController => "Multimedia controller",
            ClassName::MemoryController => "Memory controller",
            ClassName::BridgeDevice => "Bridge device",
            ClassName::CommunicationController => "Communication controller",
            ClassName::SystemDevice => "System device",
            ClassName::InputDevice => "Input device",
            ClassName::DockingStation => "Docking station",
            ClassName::CPU => "CPU",
            ClassName::SerialBus => "Serial bus",
            ClassName::WirelessController => "Wireless controller",
            ClassName::IntelligentIOController => "Intelligent I/O controller",
            ClassName::SatelliteController => "Satellite controller",
            ClassName::EncryptionController => "Encryption controller",
            ClassName::SignalProcessingController => "Signal processing controller",
            ClassName::ProprietaryDevice => "Proprietary device",
            ClassName::Count => "",
        }
    }
}

/// The display name a class code maps to, if the table knows the code.
pub fn get_dev_class_name(class_code: u8) -> (r: Option<&'static str>)
    ensures
        match spec_class_of(class_code) {
            Some(c) => r is Some && r->Some_0@ == c.spec_name(),
            None => r is None,
        },
{
    match ClassName::new(class_code) {
        Some(value) => Some(value.to_string()),
        None => None,
    }
}

/// The first sixteen bytes of a device's configuration header, decoded
/// field by field.
#[derive(Debug, Clone, Copy, PartialEq, Eq, Structural)]
pub struct Options {
    pub vendor_id: u16,
    pub device_id: u16,
    pub command_reg: u16,
    pub status_reg: u16,
    pub revision_id: u8,
    pub prog_if: u8,
    pub sub_class_code: u8,
    pub class_code: u8,
    pub cache_line_size: u8,
    pub latency: u8,
    pub header_type: u8,
    pub bist: u8,
}

/// The first sixteen bytes of a device's configuration header, as the four
/// little-endian 32-bit words a scan reads from the data port.
#[derive(Debug, Clone, Copy)]
pub struct Dev {
    pub header: [u32; 4],
}

impl Dev {
    /// A blank header.
    pub fn new() -> (r: Dev)
        ensures
            r.header[0] == 0,
            r.header[1] == 0,
            r.header[2] == 0,
            r.header[3] == 0,
    {
        Dev { header: [0, 0, 0, 0] }
    }

    /// A header made of the four words a scan read.
    pub fn from_words(h0: u32, h1: u32, h2: u32, h3: u32) -> (r: Dev)
        ensures
            r.header[0] == h0,
            r.header[1] == h1,
            r.header[2] == h2,
            r.header[3] == h3,
    {
        Dev { header: [h0, h1, h2, h3] }
    }

    /// The vendor identifier: the low half of the first word.
    pub fn vendor_id(&self) -> (r: u16)
        ensures
            r == (self.header[0] & 0xFFFF) as u16,
    {
        (self.header[0] & 0xFFFF) as u16
    }

    /// The device identifier: the high half of the first word.
    pub fn device_id(&self) -> (r: u16)
        ensures
            r == (self.header[0] >> 16) as u16,
    {
        (self.header[0] >> 16) as u16
    }

    /// The class code: the top byte of the third word.
    pub fn class_code(&self) -> (r: u8)
        ensures
            r == (self.header[2] >> 24) as u8,
    {
        (self.header[2] >> 24) as u8
    }

    /// The subclass code: the third byte of the third word.
    pub fn sub_class_code(&self) -> (r: u8)
        ensures
            r == ((self.header[2] >> 16) & 0xFF) as u8,
    {
        ((self.header[2] >> 16) & 0xFF) as u8
    }

    /// The header-type byte: the third byte of the fourth word.
    pub fn header_type(&self) -> (r: u8)
        ensures
            r == ((self.header[3] >> 16) & 0xFF) as u8,
    {
        ((self.header[3] >> 16) & 0xFF) as u8
    }

    /// Whether the header shows no device behind the address: an all-zero
    /// or all-one vendor, or an all-one device identifier.
    pub fn is_absent(&self) -> (r: bool)
        ensures
            r == ((self.header[0] & 0xFFFF) as u16 == 0u16 || (self.header[0] & 0xFFFF) as u16
                == 0xFFFFu16 || (self.header[0] >> 16) as u16 == 0xFFFFu16),
    {
        let vendor = self.vendor_id();
        let device = self.device_id();
        vendor == 0x0000 || vendor == 0xFFFF || device == 0xFFFF
    }

    /// Whether the header announces a multi-function device: the
    /// multi-function bit of the header-type byte.
    pub fn is_multifunction(&self) -> (r: bool)
        ensures
            r == ((((self.header[3] >> 16) & 0xFF) as u8 & 0x80u8) != 0),
    {
        (self.header_type() & 0x80) != 0
    }

    /// The decoded header fields, as the hardware lays them out in the four
    /// little-endian words.
    pub fn options(&self) -> (r: Options)
        ensures
            r.vendor_id == (self.header[0] & 0xFFFF) as u16,
            r.device_id == (self.header[0] >> 16) as u16,
            r.command_reg == (self.header[1] & 0xFFFF) as u16,
            r.status_reg == (self.header[1] >> 16) as u16,
            r.revision_id == (self.header[2] & 0xFF) as u8,
            r.prog_if == ((self.header[2] >> 8) & 0xFF) as u8,
            r.sub_class_code == ((self.header[2] >> 16) & 0xFF) as u8,
            r.class_code == (self.header[2] >> 24) as u8,
            r.cache_line_size == (self.header[3] & 0xFF) as u8,
            r.latency == ((self.header[3] >> 8) & 0xFF) as u8,
            r.header_type == ((self.header[3] >> 16) & 0xFF) as u8,
            r.bist == (self.header[3] >> 24) as u8,
    {
        Options {
            vendor_id: (self.header[0] & 0xFFFF) as u16,
            device_id: (self.header[0] >> 16) as u16,
            command_reg: (self.header[1] & 0xFFFF) as u16,
            status_reg: (self.header[1] >> 16) as u16,
            revision_id: (self.header[2] & 0xFF) as u8,
            prog_if: ((self.header[2] >> 8) & 0xFF) as u8,
            sub_class_code: ((self.header[2] >> 16) & 0xFF) as u8,
            class_code: (self.header[2] >> 24) as u8,
            cache_line_size: (self.header[3] & 0xFF) as u8,
            latency: ((self.header[3] >> 8) & 0xFF) as u8,
            header_type: ((self.header[3] >> 16) & 0xFF) as u8,
            bist: (self.header[3] >> 24) as u8,
        }
    }
}

/// The packed register-select word written to the configuration port.
#[derive(Debug, Clone, Copy, PartialEq, Eq, Structural)]
pub struct ConfigAddress {
    pub val: u32,
}

impl ConfigAddress {
    /// Packs register, function, device and bus numbers and the enable bit
    /// into the select word.
    pub fn new(reg_num: u8, func_num: u8, dev_num: u8, bus_num: u8, enable: bool) -> (r:
        ConfigAddress)
        ensures
            r.val == (((reg_num as u32) << 2) | ((func_num as u32) << 8) | ((dev_num as u32) << 11)
                | ((bus_num as u32) << 16) | ((if enable {
                1u32
            } else {
                0u32
            }) << 31)),
    {
        let e: u32 = if enable {
            1
        } else {
            0
        };
        ConfigAddress {
            val: ((reg_num as u32) << 2) | ((func_num as u32) << 8) | ((dev_num as u32) << 11) | (
            (bus_num as u32) << 16) | (e << 31),
        }
    }

    /// The two padding bits below the register number.
    pub fn zero(&self) -> (r: u8)
        ensures
            r == (self.val & 0b11) as u8,
    {
        (self.val & 0b11) as u8
    }

    /// The register number: bits 2 through 7.
    pub fn reg_num(&self) -> (r: u8)
        ensures
            r == ((self.val >> 2) & 0b111111) as u8,
    {
        ((self.val >> 2) & 0b111111) as u8
    }

    /// The function number: bits 8 through 10.
    pub fn func_num(&self) -> (r: u8)
        ensures
            r == ((self.val >> 8) & 0b111) as u8,
    {
        ((self.val >> 8) & 0b111) as u8
    }

    /// The device number: bits 11 through 15.
    pub fn dev_num(&self) -> (r: u8)
        ensures
            r == ((self.val >> 11) & 0b11111) as u8,
    {
        ((self.val >> 11) & 0b11111) as u8
    }

    /// The bus number: bits 16 through 23.
    pub fn bus_num(&self) -> (r: u8)
        ensures
            r == ((self.val >> 16) & 0b11111111) as u8,
    {
        ((self.val >> 16) & 0b11111111) as u8
    }

    /// The reserved bits 24 through 30.
    pub fn reserved(&self) -> (r: u8)
        ensures
            r == ((self.val >> 24) & 0b1111111) as u8,
    {
        ((self.val >> 24) & 0b1111111) as u8
    }

    /// The enable bit.
    pub fn enable(&self) -> (r: bool)
        ensures
            r == ((self.val >> 31) == 1),
    {
        (self.val >> 31) == 1
    }
}

} // verus!
