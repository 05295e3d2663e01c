//! The field table, held against the register definitions of the `imxrt-ral` crate.

use imxrt_enet_qos::register as reg;
use imxrt_enet_qos::{Field, Register};
use imxrt_ral::enet_qos as ral;

fn check(field: Field, register: Register, offset: u32, mask: u32) {
    let layout = field.layout();
    assert_eq!(layout.register, register);
    assert_eq!(layout.offset, offset);
    assert_eq!(field.mask(), mask);
}

#[test]
fn layout_of_dma_mode() {
    check(
        Field::Swr,
        Register::DmaMode,
        ral::DMA_MODE::SWR::offset,
        ral::DMA_MODE::SWR::mask,
    );
}

#[test]
fn layout_of_dma_ch0_tx_control() {
    check(
        Field::Txpbl,
        Register::DmaCh0TxControl,
        ral::DMA_CH0_TX_CONTROL::TXPBL::offset,
        ral::DMA_CH0_TX_CONTROL::TXPBL::mask,
    );
    check(
        Field::St,
        Register::DmaCh0TxControl,
        ral::DMA_CH0_TX_CONTROL::ST::offset,
        ral::DMA_CH0_TX_CONTROL::ST::mask,
    );
}

#[test]
fn layout_of_dma_ch0_rx_control() {
    check(
        Field::Rxpbl,
        Register::DmaCh0RxControl,
        ral::DMA_CH0_RX_CONTROL::RXPBL::offset,
        ral::DMA_CH0_RX_CONTROL::RXPBL::mask,
    );
    check(
        Field::Rbsz13Y,
        Register::DmaCh0RxControl,
        ral::DMA_CH0_RX_CONTROL::RBSZ_13_Y::offset,
        ral::DMA_CH0_RX_CONTROL::RBSZ_13_Y::mask,
    );
    check(
        Field::Sr,
        Register::DmaCh0RxControl,
        ral::DMA_CH0_RX_CONTROL::SR::offset,
        ral::DMA_CH0_RX_CONTROL::SR::mask,
    );
}

#[test]
fn layout_of_mtl_txq0_operation_mode() {
    check(
        Field::Tqs,
        Register::MtlTxq0OperationMode,
        ral::MTL_TXQ0_OPERATION_MODE::TQS::offset,
        ral::MTL_TXQ0_OPERATION_MODE::TQS::mask,
    );
    check(
        Field::Txqen,
        Register::MtlTxq0OperationMode,
        ral::MTL_TXQ0_OPERATION_MODE::TXQEN::offset,
        ral::MTL_TXQ0_OPERATION_MODE::TXQEN::mask,
    );
    check(
        Field::Tsf,
        Register::MtlTxq0OperationMode,
        ral::MTL_TXQ0_OPERATION_MODE::TSF::offset,
        ral::MTL_TXQ0_OPERATION_MODE::TSF::mask,
    );
}

#[test]
fn layout_of_mtl_rxq0_operation_mode() {
    check(
        Field::Rqs,
        Register::MtlRxq0OperationMode,
        ral::MTL_RXQ0_OPERATION_MODE::RQS::offset,
        ral::MTL_RXQ0_OPERATION_MODE::RQS::mask,
    );
    check(
        Field::Rsf,
        Register::MtlRxq0OperationMode,
        ral::MTL_RXQ0_OPERATION_MODE::RSF::offset,
        ral::MTL_RXQ0_OPERATION_MODE::RSF::mask,
    );
}

#[test]
fn layout_of_mac_rxq_ctrl0() {
    check(
        Field::Rxq0en,
        Register::MacRxqCtrl0,
        ral::MAC_RXQ_CTRL0::RXQ0EN::offset,
        ral::MAC_RXQ_CTRL0::RXQ0EN::mask,
    );
}

#[test]
fn layout_of_mac_packet_filter() {
    check(
        Field::Ra,
        Register::MacPacketFilter,
        ral::MAC_PACKET_FILTER::RA::offset,
        ral::MAC_PACKET_FILTER::RA::mask,
    );
    check(
        Field::Dntu,
        Register::MacPacketFilter,
        ral::MAC_PACKET_FILTER::DNTU::offset,
        ral::MAC_PACKET_FILTER::DNTU::mask,
    );
    check(
        Field::Ipfe,
        Register::MacPacketFilter,
        ral::MAC_PACKET_FILTER::IPFE::offset,
        ral::MAC_PACKET_FILTER::IPFE::mask,
    );
    check(
        Field::Vtfe,
        Register::MacPacketFilter,
        ral::MAC_PACKET_FILTER::VTFE::offset,
        ral::MAC_PACKET_FILTER::VTFE::mask,
    );
    check(
        Field::Hpf,
        Register::MacPacketFilter,
        ral::MAC_PACKET_FILTER::HPF::offset,
        ral::MAC_PACKET_FILTER::HPF::mask,
    );
    check(
        Field::Saf,
        Register::MacPacketFilter,
        ral::MAC_PACKET_FILTER::SAF::offset,
        ral::MAC_PACKET_FILTER::SAF::mask,
    );
    check(
        Field::Saif,
        Register::MacPacketFilter,
        ral::MAC_PACKET_FILTER::SAIF::offset,
        ral::MAC_PACKET_FILTER::SAIF::mask,
    );
    check(
        Field::Pcf,
        Register::MacPacketFilter,
        ral::MAC_PACKET_FILTER::PCF::offset,
        ral::MAC_PACKET_FILTER::PCF::mask,
    );
    check(
        Field::Dbf,
        Register::MacPacketFilter,
        ral::MAC_PACKET_FILTER::DBF::offset,
        ral::MAC_PACKET_FILTER::DBF::mask,
    );
    check(
        Field::Pm,
        Register::MacPacketFilter,
        ral::MAC_PACKET_FILTER::PM::offset,
        ral::MAC_PACKET_FILTER::PM::mask,
    );
    check(
        Field::Daif,
        Register::MacPacketFilter,
        ral::MAC_PACKET_FILTER::DAIF::offset,
        ral::MAC_PACKET_FILTER::DAIF::mask,
    );
    check(
        Field::Hmc,
        Register::MacPacketFilter,
        ral::MAC_PACKET_FILTER::HMC::offset,
        ral::MAC_PACKET_FILTER::HMC::mask,
    );
    check(
        Field::Huc,
        Register::MacPacketFilter,
        ral::MAC_PACKET_FILTER::HUC::offset,
        ral::MAC_PACKET_FILTER::HUC::mask,
    );
    check(
        Field::Pr,
        Register::MacPacketFilter,
        ral::MAC_PACKET_FILTER::PR::offset,
        ral::MAC_PACKET_FILTER::PR::mask,
    );
}

#[test]
fn layout_of_mac_q0_tx_flow_ctrl() {
    check(
        Field::Pt,
        Register::MacQ0TxFlowCtrl,
        ral::MAC_Q0_TX_FLOW_CTRL::PT::offset,
        ral::MAC_Q0_TX_FLOW_CTRL::PT::mask,
    );
    check(
        Field::Tfe,
        Register::MacQ0TxFlowCtrl,
        ral::MAC_Q0_TX_FLOW_CTRL::TFE::offset,
        ral::MAC_Q0_TX_FLOW_CTRL::TFE::mask,
    );
}

#[test]
fn layout_of_mac_rx_flow_ctrl() {
    check(
        Field::Rfe,
        Register::MacRxFlowCtrl,
        ral::MAC_RX_FLOW_CTRL::RFE::offset,
        ral::MAC_RX_FLOW_CTRL::RFE::mask,
    );
}

#[test]
fn layout_of_mac_configuration() {
    check(
        Field::Sarc,
        Register::MacConfiguration,
        ral::MAC_CONFIGURATION::SARC::offset,
        ral::MAC_CONFIGURATION::SARC::mask,
    );
    check(
        Field::Ipc,
        Register::MacConfiguration,
        ral::MAC_CONFIGURATION::IPC::offset,
        ral::MAC_CONFIGURATION::IPC::mask,
    );
    check(
        Field::Cst,
        Register::MacConfiguration,
        ral::MAC_CONFIGURATION::CST::offset,
        ral::MAC_CONFIGURATION::CST::mask,
    );
    check(
        Field::Acs,
        Register::MacConfiguration,
        ral::MAC_CONFIGURATION::ACS::offset,
        ral::MAC_CONFIGURATION::ACS::mask,
    );
    check(
        Field::Ps,
        Register::MacConfiguration,
        ral::MAC_CONFIGURATION::PS::offset,
        ral::MAC_CONFIGURATION::PS::mask,
    );
    check(
        Field::Fes,
        Register::MacConfiguration,
        ral::MAC_CONFIGURATION::FES::offset,
        ral::MAC_CONFIGURATION::FES::mask,
    );
    check(
        Field::Dm,
        Register::MacConfiguration,
        ral::MAC_CONFIGURATION::DM::offset,
        ral::MAC_CONFIGURATION::DM::mask,
    );
    check(
        Field::Lm,
        Register::MacConfiguration,
        ral::MAC_CONFIGURATION::LM::offset,
        ral::MAC_CONFIGURATION::LM::mask,
    );
    check(
        Field::Te,
        Register::MacConfiguration,
        ral::MAC_CONFIGURATION::TE::offset,
        ral::MAC_CONFIGURATION::TE::mask,
    );
    check(
        Field::Re,
        Register::MacConfiguration,
        ral::MAC_CONFIGURATION::RE::offset,
        ral::MAC_CONFIGURATION::RE::mask,
    );
}

#[test]
fn layout_of_mac_mdio_address() {
    check(
        Field::Pa,
        Register::MacMdioAddress,
        ral::MAC_MDIO_ADDRESS::PA::offset,
        ral::MAC_MDIO_ADDRESS::PA::mask,
    );
    check(
        Field::Rda,
        Register::MacMdioAddress,
        ral::MAC_MDIO_ADDRESS::RDA::offset,
        ral::MAC_MDIO_ADDRESS::RDA::mask,
    );
    check(
        Field::Cr,
        Register::MacMdioAddress,
        ral::MAC_MDIO_ADDRESS::CR::offset,
        ral::MAC_MDIO_ADDRESS::CR::mask,
    );
    check(
        Field::Goc1,
        Register::MacMdioAddress,
        ral::MAC_MDIO_ADDRESS::GOC_1::offset,
        ral::MAC_MDIO_ADDRESS::GOC_1::mask,
    );
    check(
        Field::Goc0,
        Register::MacMdioAddress,
        ral::MAC_MDIO_ADDRESS::GOC_0::offset,
        ral::MAC_MDIO_ADDRESS::GOC_0::mask,
    );
    check(
        Field::Gb,
        Register::MacMdioAddress,
        ral::MAC_MDIO_ADDRESS::GB::offset,
        ral::MAC_MDIO_ADDRESS::GB::mask,
    );
}

#[test]
fn layout_of_mac_mdio_data() {
    check(
        Field::Gd,
        Register::MacMdioData,
        ral::MAC_MDIO_DATA::GD::offset,
        ral::MAC_MDIO_DATA::GD::mask,
    );
}
#[test]
fn values_of_fields() {
    assert_eq!(reg::ENABLE, ral::MTL_TXQ0_OPERATION_MODE::TSF::RW::ENABLE);
    assert_eq!(reg::ENABLE, ral::MTL_RXQ0_OPERATION_MODE::RSF::RW::ENABLE);
    assert_eq!(
        reg::TXQEN_ENABLE,
        ral::MTL_TXQ0_OPERATION_MODE::TXQEN::RW::ENABLE
    );
    assert_eq!(
        reg::RXQ0EN_EN_DCB_GEN,
        ral::MAC_RXQ_CTRL0::RXQ0EN::RW::EN_DCB_GEN
    );
    assert_eq!(reg::DISABLE, ral::MAC_PACKET_FILTER::RA::RW::DISABLE);
    assert_eq!(reg::DNTU_FWD, ral::MAC_PACKET_FILTER::DNTU::RW::FWD);
    assert_eq!(reg::DISABLE, ral::MAC_PACKET_FILTER::IPFE::RW::DISABLE);
    assert_eq!(reg::DISABLE, ral::MAC_PACKET_FILTER::VTFE::RW::DISABLE);
    assert_eq!(reg::DISABLE, ral::MAC_PACKET_FILTER::HPF::RW::DISABLE);
    assert_eq!(reg::DISABLE, ral::MAC_PACKET_FILTER::HMC::RW::DISABLE);
    assert_eq!(reg::DISABLE, ral::MAC_PACKET_FILTER::HUC::RW::DISABLE);
    assert_eq!(reg::ENABLE, ral::MAC_PACKET_FILTER::SAF::RW::ENABLE);
    assert_eq!(reg::DISABLE, ral::MAC_PACKET_FILTER::SAIF::RW::DISABLE);
    assert_eq!(reg::PCF_FW_PASS, ral::MAC_PACKET_FILTER::PCF::RW::FW_PASS);
    assert_eq!(reg::DBF_ENABLE, ral::MAC_PACKET_FILTER::DBF::RW::ENABLE);
    assert_eq!(reg::ENABLE, ral::MAC_PACKET_FILTER::PM::RW::ENABLE);
    assert_eq!(reg::DISABLE, ral::MAC_PACKET_FILTER::DAIF::RW::DISABLE);
    assert_eq!(reg::DISABLE, ral::MAC_PACKET_FILTER::PR::RW::DISABLE);
    assert_eq!(reg::DISABLE, ral::MAC_Q0_TX_FLOW_CTRL::TFE::RW::DISABLE);
    assert_eq!(reg::DISABLE, ral::MAC_RX_FLOW_CTRL::RFE::RW::DISABLE);
    assert_eq!(reg::ENABLE, ral::MAC_CONFIGURATION::IPC::RW::ENABLE);
    assert_eq!(reg::ENABLE, ral::MAC_CONFIGURATION::CST::RW::ENABLE);
    assert_eq!(reg::ENABLE, ral::MAC_CONFIGURATION::ACS::RW::ENABLE);
    assert_eq!(
        reg::PS_BF_10_100M,
        ral::MAC_CONFIGURATION::PS::RW::BF_10_100M
    );
    assert_eq!(
        reg::FES_MBPS_100_2500M,
        ral::MAC_CONFIGURATION::FES::RW::MBPS_100_2500M
    );
    assert_eq!(reg::DM_FDUPLX, ral::MAC_CONFIGURATION::DM::RW::FDUPLX);
    assert_eq!(reg::DISABLE, ral::MAC_CONFIGURATION::LM::RW::DISABLE);
}

#[test]
fn fields_place_and_extract() {
    assert_eq!(Field::Pa.place(0x1f), 0x03e0_0000);
    assert_eq!(Field::Pa.extract(0xffff_ffff), 0x1f);
    // What does not fit is cut off.
    assert_eq!(Field::Pa.place(0xff), 0x03e0_0000);
    assert_eq!(Field::Pt.place(512), 0x0200_0000);
    assert_eq!(Field::Pt.extract(0x1234_5678), 0x1234);
    assert_eq!(Field::Cr.extract(Field::Cr.place(5)), 5);
    assert_eq!(Field::Gd.mask(), 0xffff);
}
