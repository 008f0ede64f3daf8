//! PCI subclass-code tables, one enum per device class.

use vstd::prelude::*;

verus! {

/// Subclasses of the unclassified device class.
#[derive(Debug, Clone, Copy, PartialEq, Eq, Structural)]
pub enum UnclassifiedSubclass {
    NonVGA,
    VGA,
    Count,
}

impl UnclassifiedSubclass {
    /// The subclass a subclass code names, if the table knows the code.
    pub fn new(subclass_code: u8) -> (r: Option<UnclassifiedSubclass>)
        ensures
            subclass_code == 0 ==> r == Some(UnclassifiedSubclass::NonVGA),
            subclass_code == 1 ==> r == Some(UnclassifiedSubclass::VGA),
            subclass_code >= 2 ==> r is None,
    {
        match subclass_code {
            0 => Some(UnclassifiedSubclass::NonVGA),
            1 => Some(UnclassifiedSubclass::VGA),
            _ => None,
        }
    }

    /// The subclass's display name.
    pub fn to_string(&self) -> (r: &'static str)
        ensures
            *self == UnclassifiedSubclass::NonVGA ==> r@ == "Non-VGA-Compatible"@,
            *self == UnclassifiedSubclass::VGA ==> r@ == "VGA-Compatible"@,
            *self == UnclassifiedSubclass::Count ==> r@ == ""@,
    {
        match self {
            UnclassifiedSubclass::NonVGA => "Non-VGA-Compatible",
            UnclassifiedSubclass::VGA => "VGA-Compatible",
            UnclassifiedSubclass::Count => "",
        }
    }
}

/// Subclasses of the disk-controller class.
#[derive(Debug, Clone, Copy, PartialEq, Eq, Structural)]
pub enum DiskControllerSubclass {
    SCSIBus,
    IDE,
    FloppyDisk,
    IPIBus,
    RAID,
    ATA,
    SerialATA,
    SerialAttachedSCSI,
    NonVolatileMemory,
    Other,
    Count,
}

/// Subclasses of the network-interface class.
#[derive(Debug, Clone, Copy, PartialEq, Eq, Structural)]
pub enum NetworkInterfaceSubclass {
    Ethernet,
    TokenRing,
    FDDI,
    ATM,
    ISDN,
    WorldFip,
    PICMG214MultiComputing,
    Infiniband,
    Fabric,
    Other,
    Count,
}

/// Subclasses of the graphics-adapter class.
#[derive(Debug, Clone, Copy, PartialEq, Eq, Structural)]
pub enum GraphicsAdapterSubclass {
    VGACompatible,
    XGA,
    VGAIncompatible3D,
    Other,
    Count,
}

/// Subclasses of the multimedia-controller class.
#[derive(Debug, Clone, Copy, PartialEq, Eq, Structural)]
pub enum MultimediaControllerSubclass {
    MultimediaVideo,
    MultimediaAudio,
    ComputerTelephony,
    AudioDevice,
    Other,
    Count,
}

/// Subclasses of the memory-controller class.
#[derive(Debug, Clone, Copy, PartialEq, Eq, Structural)]
pub enum MemoryControllerSubclass {
    RAM,
    Flash,
    Other,
    Count,
}

/// Subclasses of the bridge-device class.
#[derive(Debug, Clone, Copy, PartialEq, Eq, Structural)]
pub enum BridgeDeviceSubclass {
    Host,
    ISA,
    EISA,
    MCA,
    PCI2PCI,
    PCMCIA,
    NuBus,
    CardBus,
    RACEway,
    PCI2PCI2,
    InfiniBand2PCI,
    Other,
    Count,
}

/// Subclasses of the communication-controller class.
#[derive(Debug, Clone, Copy, PartialEq, Eq, Structural)]
pub enum CommunicationControllerSubclass {
    Serial,
    Parallel,
    MultiportSerial,
    Modem,
    IEEE48812GPIB,
    SmartCard,
    Other,
    Count,
}

/// Subclasses of the system-device class.
#[derive(Debug, Clone, Copy, PartialEq, Eq, Structural)]
pub enum SystemDeviceSubclass {
    PIC,
    DMA,
    Timer,
    RTC,
    PCIHotPlug,
    SD,
    IOMMU,
    Other,
    Count,
}

/// Subclasses of the input-device class.
#[derive(Debug, Clone, Copy, PartialEq, Eq, Structural)]
pub enum InputDeviceSubclass {
    Keyboard,
    DigitizerPen,
    Mouse,
    Scanner,
    Gameport,
    Other,
    Count,
}

/// Subclasses of the docking-station class.
#[derive(Debug, Clone, Copy, PartialEq, Eq, Structural)]
pub enum DockingStationSubclass {
    Generic,
    Other,
    Count,
}

/// Subclasses of the CPU class.
#[derive(Debug, Clone, Copy, PartialEq, Eq, Structural)]
pub enum CPUSubclass {
    I386,
    I486,
    Pentium,
    PentiumPro,
    Alpha,
    PowerPC,
    MIPS,
    CoProcessor,
    Other,
    Count,
}

/// Subclasses of the serial-bus class.
#[derive(Debug, Clone, Copy, PartialEq, Eq, Structural)]
pub enum SerialBusSubclass {
    FireWireIEEE1394,
    ACCESS,
    SSA,
    USB,
    Fibre,
    SMBus,
    InfiniBand,
    IPMI,
    SERCOSIEC61491,
    CAN,
    Other,
    Count,
}

/// Subclasses of the wireless-controller class.
#[derive(Debug, Clone, Copy, PartialEq, Eq, Structural)]
pub enum WirelessControllerSubclass {
    IRDACompatible,
    ConsumerIR,
    RF,
    Bluetooth,
    Broadband,
    Ethernet8021a,
    Ethernet8021b,
    Other,
    Count,
}

/// Subclasses of the intelligent-controller class.
#[derive(Debug, Clone, Copy, PartialEq, Eq, Structural)]
pub enum IntelligentControllerSubclass {
    I20,
    Count,
}

/// Subclasses of the satellite-controller class.
#[derive(Debug, Clone, Copy, PartialEq, Eq, Structural)]
pub enum SatelliteControllerSubclass {
    TV,
    Audio,
    Voice,
    Data,
    Count,
}

/// Subclasses of the encryption-controller class.
#[derive(Debug, Clone, Copy, PartialEq, Eq, Structural)]
pub enum EncryptionControllerSubclass {
    NetworkAndComputing,
    Entertainment,
    Other,
    Count,
}

/// Subclasses of the signal-processing-controller class.
#[derive(Debug, Clone, Copy, PartialEq, Eq, Structural)]
pub enum SignalProcessingControllerSubclass {
    DPIOModules,
    PerformanceCounters,
    CommunicationSynchronizer,
    SignalProcessingManagement,
    Other,
    Count,
}

/// Subclasses of the proprietary-device class.
#[derive(Debug, Clone, Copy, PartialEq, Eq, Structural)]
pub enum ProprietaryDeviceSubclass {
    Count,
}

} // verus!
