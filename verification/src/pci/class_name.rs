//! The revised PCI class-code table, with class 0 as "Unclassified".

use vstd::prelude::*;

verus! {

/// A PCI device class, as named by the revised class-code table.
#[derive(Debug, Clone, Copy, PartialEq, Eq, Structural)]
pub enum ClassName {
    Unclassified,
    DiskController,
    NetworkInterface,
    GraphicsAdapter,
    MultimediaController,
    MemoryController,
    BridgeDevice,
    CommunicationController,
    SystemDevice,
    InputDevice,
    DockingStation,
    CPU,
    SerialBus,
    WirelessController,
    IntelligentIOController,
    SatelliteController,
    EncryptionController,
    SignalProcessingController,
    ProprietaryDevice,
    Count,
}

/// Which class a class code names: the codes 0 through 17 in table order,
/// 0xFF for a proprietary device, and nothing otherwise.
pub open spec fn spec_class_of(class_code: u8) -> Option<ClassName> {
    if class_code == 0 {
        Some(ClassName::Unclassified)
    } else if class_code == 1 {
        Some(ClassName::DiskController)
    } else if class_code == 2 {
        Some(ClassName::NetworkInterface)
    } else if class_code == 3 {
        Some(ClassName::GraphicsAdapter)
    } else if class_code == 4 {
        Some(ClassName::MultimediaController)
    } else if class_code == 5 {
        Some(ClassName::MemoryController)
    } else if class_code == 6 {
        Some(ClassName::BridgeDevice)
    } else if class_code == 7 {
        Some(ClassName::CommunicationController)
    } else if class_code == 8 {
        Some(ClassName::SystemDevice)
    } else if class_code == 9 {
        Some(ClassName::InputDevice)
    } else if class_code == 10 {
        Some(ClassName::DockingStation)
    } else if class_code == 11 {
        Some(ClassName::CPU)
    } else if class_code == 12 {
        Some(ClassName::SerialBus)
    } else if class_code == 13 {
        Some(ClassName::WirelessController)
    } else if class_code == 14 {
        Some(ClassName::IntelligentIOController)
    } else if class_code == 15 {
        Some(ClassName::SatelliteController)
    } else if class_code == 16 {
        Some(ClassName::EncryptionController)
    } else if class_code == 17 {
        Some(ClassName::SignalProcessingController)
    } else if class_code == 0xFF {
        Some(ClassName::ProprietaryDevice)
    } else {
        None
    }
}

impl ClassName {
    /// The class a class code names, if the table knows the code.
    pub fn new(class_code: u8) -> (r: Option<ClassName>)
        ensures
            r == spec_class_of(class_code),
    {
        if class_code > 17 && class_code != 0xFF {
            return None;
        }
        match class_code {
            0 => Some(ClassName::Unclassified),
            1 => Some(ClassName::DiskController),
            2 => Some(ClassName::NetworkInterface),
            3 => Some(ClassName::GraphicsAdapter),
            4 => Some(ClassName::MultimediaController),
            5 => Some(ClassName::MemoryController),
            6 => Some(ClassName::BridgeDevice),
            7 => Some(ClassName::CommunicationController),
            8 => Some(ClassName::SystemDevice),
            9 => Some(ClassName::InputDevice),
            10 => Some(ClassName::DockingStation),
            11 => Some(ClassName::CPU),
            12 => Some(ClassName::SerialBus),
            13 => Some(ClassName::WirelessController),
            14 => Some(ClassName::IntelligentIOController),
            15 => Some(ClassName::SatelliteController),
            16 => Some(ClassName::EncryptionController),
            17 => Some(ClassName::SignalProcessingController),
            _ => Some(ClassName::ProprietaryDevice),
        }
    }

    /// The class's display name.
    pub open spec fn spec_name(self) -> Seq<char> {
        match self {
            ClassName::Unclassified => "Unclassified"@,
            ClassName::DiskController => "Disk controller"@,
            ClassName::NetworkInterface => "Network interface"@,
            ClassName::GraphicsAdapter => "Graphics adapter"@,
            ClassName::MultimediaController => "Multimedia controller"@,
            ClassName::MemoryController => "Memory controller"@,
            ClassName::BridgeDevice => "Bridge device"@,
            ClassName::CommunicationController => "Communication controller"@,
            ClassName::SystemDevice => "System device"@,
            ClassName::InputDevice => "Input device"@,
            ClassName::DockingStation => "Docking station"@,
            ClassName::CPU => "CPU"@,
            ClassName::SerialBus => "Serial bus"@,
            ClassName::WirelessController => "Wireless controller"@,
            ClassName::IntelligentIOController => "Intelligent I/O controller"@,
            ClassName::SatelliteController => "Satellite controller"@,
            ClassName::EncryptionController => "Encryption controller"@,
            ClassName::SignalProcessingController => "Signal processing controller"@,
            ClassName::ProprietaryDevice => "Proprietary device"@,
            ClassName::Count => ""@,
        }
    }

    /// The class's display name.
    pub fn to_string(&self) -> (r: &'static str)
        ensures
            r@ == self.spec_name(),
    {
        match self {
            ClassName::Unclassified => "Unclassified",
            ClassName::DiskController => "Disk controller",
            ClassName::NetworkInterface => "Network interface",
            ClassName::GraphicsAdapter => "Graphics adapter",
            ClassName::MultimediaController => "Multimedia controller",
            ClassName::MemoryController => "Memory controller",
            ClassName::BridgeDevice => "Bridge device",
            ClassName::CommunicationController => "Communication controller",
            ClassName::SystemDevice => "System device",
            ClassName::InputDevice => "Input device",
            ClassName::DockingStation => "Docking station",
            ClassName::CPU => "CPU",
            ClassName::SerialBus => "Serial bus",
            ClassName::WirelessController => "Wireless controller",
            ClassName::IntelligentIOController => "Intelligent I/O controller",
            ClassName::SatelliteController => "Satellite controller",
            ClassName::EncryptionController => "Encryption controller",
            ClassName::SignalProcessingController => "Signal processing controller",
            ClassName::ProprietaryDevice => "Proprietary device",
            ClassName::Count => "",
        }
    }
}

} // verus!
